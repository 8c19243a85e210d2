//! Credential lifecycle edits: finding a credential, choosing the version to
//! derive, and starting, confirming and aborting rotations.
use vstd::prelude::*;
use crate::model::{
    transition_allowed, CoreError, CredentialRecord, CredentialVersion, PublicSalt, RecipesFile,
    VersionStatus,
};
use crate::primitives::now_rfc3339;
use crate::text::{concat2, decimal, push_decimal, same_text};

verus! {

/// Errors of lifecycle edits and lookups.
#[derive(Debug)]
pub enum LifecycleError {
    AccountNotFound(String),
    VersionNotFound(u32),
    ExplicitVersionRestricted,
    NoPendingVersion(String),
    NoActiveCredential,
    PendingAlreadyExists(String),
    NoActiveVersion(String),
    AliasAlreadyExists(String),
    ProfileNotFound(String),
    ProfileAlreadyExists(String),
    InvalidProfile(String),
    NoSeedConfigured,
    Directory(CoreError),
}

/// The text of a lifecycle error.
pub open spec fn lifecycle_message(e: LifecycleError) -> Seq<char> {
    match e {
        LifecycleError::AccountNotFound(a) => "account not found: "@ + a@,
        LifecycleError::VersionNotFound(n) => "version not found: "@ + decimal(n as nat),
        LifecycleError::ExplicitVersionRestricted => "explicit version derivation is only allowed with --allow-retired for retired versions"@,
        LifecycleError::NoPendingVersion(a) => "no pending version for "@ + a@,
        LifecycleError::NoActiveCredential => "no active credential; use --pending or confirm pending version"@,
        LifecycleError::PendingAlreadyExists(a) => "pending version already exists for "@ + a@,
        LifecycleError::NoActiveVersion(a) => "no active version for "@ + a@,
        LifecycleError::AliasAlreadyExists(a) => "alias already exists: "@ + a@,
        LifecycleError::ProfileNotFound(n) => "profile not found: "@ + n@,
        LifecycleError::ProfileAlreadyExists(n) => "profile already exists: "@ + n@,
        LifecycleError::InvalidProfile(m) => "invalid profile: "@ + m@,
        LifecycleError::NoSeedConfigured => "no seed configured"@,
        LifecycleError::Directory(e) => crate::model::core_message(e),
    }
}

impl LifecycleError {
    /// The error's text.
    pub fn message(&self) -> (r: String)
        ensures
            r@ == lifecycle_message(*self),
    {
        match self {
            LifecycleError::AccountNotFound(a) => concat2("account not found: ", a.as_str()),
            LifecycleError::VersionNotFound(n) => {
                let mut out = String::new();
                out.append("version not found: ");
                push_decimal(&mut out, *n as u64);
                out
            },
            LifecycleError::ExplicitVersionRestricted => "explicit version derivation is only allowed with --allow-retired for retired versions".to_owned(),
            LifecycleError::NoPendingVersion(a) => concat2("no pending version for ", a.as_str()),
            LifecycleError::NoActiveCredential => "no active credential; use --pending or confirm pending version".to_owned(),
            LifecycleError::PendingAlreadyExists(a) => concat2(
                "pending version already exists for ",
                a.as_str(),
            ),
            LifecycleError::NoActiveVersion(a) => concat2("no active version for ", a.as_str()),
            LifecycleError::AliasAlreadyExists(a) => concat2("alias already exists: ", a.as_str()),
            LifecycleError::ProfileNotFound(n) => concat2("profile not found: ", n.as_str()),
            LifecycleError::ProfileAlreadyExists(n) => concat2("profile already exists: ", n.as_str()),
            LifecycleError::InvalidProfile(m) => concat2("invalid profile: ", m.as_str()),
            LifecycleError::NoSeedConfigured => "no seed configured".to_owned(),
            LifecycleError::Directory(e) => e.message(),
        }
    }
}

// ---------------------------------------------------------------------------
// Finding records and versions

/// `i` is the index of the first record with alias `alias`.
pub open spec fn is_first_alias(rs: Seq<CredentialRecord>, alias: Seq<char>, i: int) -> bool {
    &&& 0 <= i < rs.len()
    &&& rs[i].alias@ == alias
    &&& forall|j: int| 0 <= j < i ==> (#[trigger] rs[j]).alias@ != alias
}

/// The index of the first record with alias `alias`, if any.
pub open spec fn first_alias(rs: Seq<CredentialRecord>, alias: Seq<char>) -> Option<int> {
    if exists|i: int| is_first_alias(rs, alias, i) {
        Some(choose|i: int| is_first_alias(rs, alias, i))
    } else {
        None
    }
}

/// `j` is the index of the first version with status `st`.
pub open spec fn is_first_status(vs: Seq<CredentialVersion>, st: VersionStatus, j: int) -> bool {
    &&& 0 <= j < vs.len()
    &&& vs[j].status == st
    &&& forall|k: int| 0 <= k < j ==> (#[trigger] vs[k]).status != st
}

/// The index of the first version with status `st`, if any.
pub open spec fn first_status(vs: Seq<CredentialVersion>, st: VersionStatus) -> Option<int> {
    if exists|j: int| is_first_status(vs, st, j) {
        Some(choose|j: int| is_first_status(vs, st, j))
    } else {
        None
    }
}

/// `j` is the index of the first version numbered `n`.
pub open spec fn is_first_number(vs: Seq<CredentialVersion>, n: u32, j: int) -> bool {
    &&& 0 <= j < vs.len()
    &&& vs[j].number == n
    &&& forall|k: int| 0 <= k < j ==> (#[trigger] vs[k]).number != n
}

/// The index of the first version numbered `n`, if any.
pub open spec fn first_number(vs: Seq<CredentialVersion>, n: u32) -> Option<int> {
    if exists|j: int| is_first_number(vs, n, j) {
        Some(choose|j: int| is_first_number(vs, n, j))
    } else {
        None
    }
}

/// Index of the first record with the alias.
pub fn find_record_index(recipes: &RecipesFile, alias: &str) -> (r: Option<usize>)
    ensures
        match (r, first_alias(recipes.credentials@, alias@)) {
            (Some(i), Some(k)) => i == k,
            (None, None) => true,
            _ => false,
        },
{
    let ghost rs = recipes.credentials@;
    for i in 0..recipes.credentials.len()
        invariant
            rs == recipes.credentials@,
            forall|j: int| 0 <= j < i ==> (#[trigger] rs[j]).alias@ != alias@,
    {
        if same_text(recipes.credentials[i].alias.as_str(), alias) {
            assert(is_first_alias(rs, alias@, i as int));
            let ghost k = choose|k: int| is_first_alias(rs, alias@, k);
            assert(k == i) by {
                if k < i {
                    assert(rs[k].alias@ != alias@);
                } else if k > i {
                    assert(rs[i as int].alias@ != alias@);
                }
            }
            return Some(i);
        }
    }
    None
}

/// Index of the first version with the status.
fn find_status(vs: &Vec<CredentialVersion>, st: VersionStatus) -> (r: Option<usize>)
    ensures
        match (r, first_status(vs@, st)) {
            (Some(i), Some(k)) => i == k,
            (None, None) => true,
            _ => false,
        },
{
    for i in 0..vs.len()
        invariant
            forall|j: int| 0 <= j < i ==> (#[trigger] vs@[j]).status != st,
    {
        if vs[i].status == st {
            assert(is_first_status(vs@, st, i as int));
            let ghost k = choose|k: int| is_first_status(vs@, st, k);
            assert(k == i) by {
                if k < i {
                    assert(vs@[k].status != st);
                } else if k > i {
                    assert(vs@[i as int].status != st);
                }
            }
            return Some(i);
        }
    }
    None
}

/// Index of the first version with the number.
fn find_number(vs: &Vec<CredentialVersion>, n: u32) -> (r: Option<usize>)
    ensures
        match (r, first_number(vs@, n)) {
            (Some(i), Some(k)) => i == k,
            (None, None) => true,
            _ => false,
        },
{
    for i in 0..vs.len()
        invariant
            forall|j: int| 0 <= j < i ==> (#[trigger] vs@[j]).number != n,
    {
        if vs[i].number == n {
            assert(is_first_number(vs@, n, i as int));
            let ghost k = choose|k: int| is_first_number(vs@, n, k);
            assert(k == i) by {
                if k < i {
                    assert(vs@[k].number != n);
                } else if k > i {
                    assert(vs@[i as int].number != n);
                }
            }
            return Some(i);
        }
    }
    None
}

/// The first credential with the alias.
pub fn find_record<'a>(recipes: &'a RecipesFile, alias: &str) -> (r: Result<&'a CredentialRecord, LifecycleError>)
    ensures
        match first_alias(recipes.credentials@, alias@) {
            Some(i) => r matches Ok(rec) && *rec == recipes.credentials@[i],
            None => r matches Err(LifecycleError::AccountNotFound(a)) && a@ == alias@,
        },
{
    match find_record_index(recipes, alias) {
        Some(i) => Ok(&recipes.credentials[i]),
        None => Err(LifecycleError::AccountNotFound(alias.to_owned())),
    }
}

// ---------------------------------------------------------------------------
// Choosing the version to derive

/// Which version of a credential to derive.
#[derive(Debug)]
pub struct VersionRequest {
    pub alias: String,
    pub pending: bool,
    pub version: Option<u32>,
    pub allow_retired: bool,
}

/// The version index that a request selects among a credential's versions, or
/// which refusal it gets: an explicit number must name a retired version and come
/// with `allow_retired`; otherwise the first pending version when asked for, else
/// the first active one.
pub open spec fn selected_version(vs: Seq<CredentialVersion>, req: VersionRequest) -> Result<int, nat> {
    match req.version {
        Some(n) => match first_number(vs, n) {
            None => Err(0),
            Some(j) => if vs[j].status == VersionStatus::Retired && req.allow_retired {
                Ok(j)
            } else {
                Err(1)
            },
        },
        None => if req.pending {
            match first_status(vs, VersionStatus::Pending) {
                Some(j) => Ok(j),
                None => Err(2),
            }
        } else {
            match first_status(vs, VersionStatus::Active) {
                Some(j) => Ok(j),
                None => Err(3),
            }
        },
    }
}

/// Chooses the record and version to derive for a request.
pub fn select_version<'a>(recipes: &'a RecipesFile, request: &VersionRequest) -> (r: Result<
    (&'a CredentialRecord, &'a CredentialVersion),
    LifecycleError,
>)
    ensures
        match first_alias(recipes.credentials@, request.alias@) {
            None => r matches Err(LifecycleError::AccountNotFound(a)) && a@ == request.alias@,
            Some(i) => {
                let rec = recipes.credentials@[i];
                match selected_version(rec.versions@, *request) {
                    Ok(j) => r matches Ok((x, v)) && *x == rec && *v == rec.versions@[j],
                    Err(code) => match r {
                        Err(LifecycleError::VersionNotFound(n)) => code == 0 && request.version
                            == Some(n),
                        Err(LifecycleError::ExplicitVersionRestricted) => code == 1,
                        Err(LifecycleError::NoPendingVersion(a)) => code == 2 && a@
                            == request.alias@,
                        Err(LifecycleError::NoActiveCredential) => code == 3,
                        _ => false,
                    },
                }
            },
        },
{
    let record = find_record(recipes, request.alias.as_str())?;
    if let Some(number) = request.version {
        let j = match find_number(&record.versions, number) {
            Some(j) => j,
            None => return Err(LifecycleError::VersionNotFound(number)),
        };
        let version = &record.versions[j];
        if version.status == VersionStatus::Retired && request.allow_retired {
            return Ok((record, version));
        }
        return Err(LifecycleError::ExplicitVersionRestricted);
    }
    if request.pending {
        return match find_status(&record.versions, VersionStatus::Pending) {
            Some(j) => Ok((record, &record.versions[j])),
            None => Err(LifecycleError::NoPendingVersion(request.alias.clone())),
        };
    }
    match find_status(&record.versions, VersionStatus::Active) {
        Some(j) => Ok((record, &record.versions[j])),
        None => Err(LifecycleError::NoActiveCredential),
    }
}

// ---------------------------------------------------------------------------
// Editing versions

/// `after` is `before` with the versions of record `i` replaced by `vs`, all else
/// kept.
pub open spec fn versions_replaced(
    before: Seq<CredentialRecord>,
    after: Seq<CredentialRecord>,
    i: int,
    vs: Seq<CredentialVersion>,
) -> bool {
    &&& after.len() == before.len()
    &&& 0 <= i < before.len()
    &&& forall|k: int| 0 <= k < before.len() && k != i ==> #[trigger] after[k] == before[k]
    &&& after[i].uid == before[i].uid
    &&& after[i].alias == before[i].alias
    &&& after[i].purpose == before[i].purpose
    &&& after[i].versions@ == vs
}

fn set_versions(recipes: &mut RecipesFile, i: usize, vs: Vec<CredentialVersion>)
    requires
        i < old(recipes).credentials.len(),
    ensures
        final(recipes).format == old(recipes).format,
        final(recipes).seeds == old(recipes).seeds,
        versions_replaced(old(recipes).credentials@, final(recipes).credentials@, i as int, vs@),
{
    let ghost before = recipes.credentials@;
    let mut rec = recipes.credentials.remove(i);
    rec.versions = vs;
    recipes.credentials.insert(i, rec);
    assert forall|k: int| 0 <= k < before.len() && k != i implies #[trigger] recipes.credentials@[k]
        == before[k] by {
        if k < i {
            assert(recipes.credentials@[k] == before[k]);
        } else {
            assert(recipes.credentials@[k] == before[k]);
        }
    }
}

/// A version after its pending rotation numbered `pending` is confirmed at `now`:
/// that version becomes active, a previously active one becomes retired, the rest
/// stay as they are.
pub open spec fn confirmed(v: CredentialVersion, pending: u32, now: String) -> CredentialVersion {
    if v.number == pending {
        CredentialVersion { status: VersionStatus::Active, confirmed_at: Some(now), ..v }
    } else if v.status == VersionStatus::Active {
        CredentialVersion { status: VersionStatus::Retired, retired_at: Some(now), ..v }
    } else {
        v
    }
}

/// What confirming the pending version of the credential `alias` at `now` does.
pub open spec fn confirm_effect(
    before: RecipesFile,
    after: RecipesFile,
    alias: Seq<char>,
    now: String,
    r: Result<(), LifecycleError>,
) -> bool {
    &&& after.format == before.format
    &&& after.seeds == before.seeds
    &&& match first_alias(before.credentials@, alias) {
        None => {
            &&& r matches Err(LifecycleError::AccountNotFound(a)) && a@ == alias
            &&& after.credentials@ == before.credentials@
        },
        Some(i) => {
            let vs = before.credentials@[i].versions@;
            match first_status(vs, VersionStatus::Pending) {
                None => {
                    &&& r matches Err(LifecycleError::NoPendingVersion(a)) && a@ == alias
                    &&& after.credentials@ == before.credentials@
                },
                Some(j) => {
                    &&& r is Ok
                    &&& versions_replaced(
                        before.credentials@,
                        after.credentials@,
                        i,
                        vs.map_values(|v: CredentialVersion| confirmed(v, vs[j].number, now)),
                    )
                },
            }
        },
    }
}

/// Confirms the first pending version of a credential at the given time: versions
/// with its number become active and previously active ones retired.
pub fn confirm_pending_at(recipes: &mut RecipesFile, alias: &str, now: &String) -> (r: Result<(), LifecycleError>)
    ensures
        confirm_effect(*old(recipes), *final(recipes), alias@, *now, r),
{
    let i = match find_record_index(recipes, alias) {
        Some(i) => i,
        None => return Err(LifecycleError::AccountNotFound(alias.to_owned())),
    };
    let j = match find_status(&recipes.credentials[i].versions, VersionStatus::Pending) {
        Some(j) => j,
        None => return Err(LifecycleError::NoPendingVersion(alias.to_owned())),
    };
    let pending_number = recipes.credentials[i].versions[j].number;
    let ghost vs = recipes.credentials@[i as int].versions@;
    let mut updated: Vec<CredentialVersion> = Vec::new();
    let n = recipes.credentials[i].versions.len();
    for k in 0..n
        invariant
            i < recipes.credentials.len(),
            vs == recipes.credentials@[i as int].versions@,
            n == vs.len(),
            updated@ == vs.take(k as int).map_values(
                |v: CredentialVersion| confirmed(v, pending_number, *now),
            ),
    {
        let mut v = recipes.credentials[i].versions[k].clone();
        if v.number == pending_number {
            v.status = VersionStatus::Active;
            v.confirmed_at = Some(now.clone());
        } else if v.status == VersionStatus::Active {
            v.status = VersionStatus::Retired;
            v.retired_at = Some(now.clone());
        }
        updated.push(v);
        assert(updated@ =~= vs.take(k + 1).map_values(
            |v: CredentialVersion| confirmed(v, pending_number, *now),
        ));
    }
    assert(vs.take(n as int) =~= vs);
    set_versions(recipes, i, updated);
    Ok(())
}

/// Confirms the first pending version of a credential now.
pub fn confirm_pending(recipes: &mut RecipesFile, alias: &str) -> (r: Result<(), LifecycleError>)
    ensures
        exists|now: String| clock_timestamp(now) && confirm_effect(*old(recipes), *final(recipes), alias@, now, r),
{
    let now = now_rfc3339();
    let r = confirm_pending_at(recipes, alias, &now);
    assert(clock_timestamp(now) && confirm_effect(*old(recipes), *recipes, alias@, now, r));
    r
}

/// A timestamp as the clock gives it: RFC 3339 text that parses back, or empty
/// where the clock lies outside the years that RFC 3339 can write.
pub open spec fn clock_timestamp(now: String) -> bool {
    now@.len() > 0 ==> crate::primitives::rfc3339_unix_nanos(now@) is Some
}

/// A new public salt: unpadded base64url of 16 bytes, as validation requires.
pub open spec fn fresh_salt(salt: PublicSalt) -> bool {
    crate::validate::public_salt_bytes(salt.0@) matches Some(b) && b.len() == 16
}

/// The public salt for 16 bytes: their unpadded base64url text.
pub(crate) fn salt_from_bytes(bytes: [u8; 16]) -> (r: PublicSalt)
    ensures
        fresh_salt(r),
{
    let text = crate::primitives::b64url_encode(bytes.as_slice());
    PublicSalt(text)
}

/// A version marked failed at `now`.
pub open spec fn failed(v: CredentialVersion, now: String) -> CredentialVersion {
    CredentialVersion { status: VersionStatus::Failed, failed_at: Some(now), ..v }
}

/// What aborting the pending rotation of the credential `alias` at `now` does.
pub open spec fn abort_effect(
    before: RecipesFile,
    after: RecipesFile,
    alias: Seq<char>,
    now: String,
    r: Result<(), LifecycleError>,
) -> bool {
    &&& after.format == before.format
    &&& after.seeds == before.seeds
    &&& match first_alias(before.credentials@, alias) {
        None => {
            &&& r matches Err(LifecycleError::AccountNotFound(a)) && a@ == alias
            &&& after.credentials@ == before.credentials@
        },
        Some(i) => {
            let vs = before.credentials@[i].versions@;
            match first_status(vs, VersionStatus::Pending) {
                None => {
                    &&& r matches Err(LifecycleError::NoPendingVersion(a)) && a@ == alias
                    &&& after.credentials@ == before.credentials@
                },
                Some(j) => {
                    &&& r is Ok
                    &&& versions_replaced(
                        before.credentials@,
                        after.credentials@,
                        i,
                        vs.update(j, failed(vs[j], now)),
                    )
                },
            }
        },
    }
}

/// Marks the first pending version of a credential failed at the given time.
pub fn abort_pending_at(recipes: &mut RecipesFile, alias: &str, now: &String) -> (r: Result<(), LifecycleError>)
    ensures
        abort_effect(*old(recipes), *final(recipes), alias@, *now, r),
{
    let i = match find_record_index(recipes, alias) {
        Some(i) => i,
        None => return Err(LifecycleError::AccountNotFound(alias.to_owned())),
    };
    let j = match find_status(&recipes.credentials[i].versions, VersionStatus::Pending) {
        Some(j) => j,
        None => return Err(LifecycleError::NoPendingVersion(alias.to_owned())),
    };
    let ghost vs = recipes.credentials@[i as int].versions@;
    let mut updated = crate::model::clone_versions(&recipes.credentials[i].versions);
    let mut v = updated.remove(j);
    v.status = VersionStatus::Failed;
    v.failed_at = Some(now.clone());
    updated.insert(j, v);
    assert(updated@ =~= vs.update(j as int, failed(vs[j as int], *now)));
    set_versions(recipes, i, updated);
    Ok(())
}

/// Marks the first pending version of a credential failed now.
pub fn abort_pending(recipes: &mut RecipesFile, alias: &str) -> (r: Result<(), LifecycleError>)
    ensures
        exists|now: String| clock_timestamp(now) && abort_effect(*old(recipes), *final(recipes), alias@, now, r),
{
    let now = now_rfc3339();
    let r = abort_pending_at(recipes, alias, &now);
    assert(clock_timestamp(now) && abort_effect(*old(recipes), *recipes, alias@, now, r));
    r
}

/// The largest version number, 0 for none.
pub open spec fn max_number(vs: Seq<CredentialVersion>) -> nat
    decreases vs.len(),
{
    if vs.len() == 0 {
        0
    } else if vs.last().number > max_number(vs.drop_last()) {
        vs.last().number as nat
    } else {
        max_number(vs.drop_last())
    }
}

/// The pending version that a rotation adds: the active version's seed, scheme and
/// profile with a new number, a new public salt and a creation time.
pub open spec fn rotated(active: CredentialVersion, number: u32, salt: PublicSalt, now: String) -> CredentialVersion {
    CredentialVersion {
        number: number,
        status: VersionStatus::Pending,
        seed: active.seed,
        scheme: active.scheme,
        public_salt: salt,
        profile_snapshot: active.profile_snapshot,
        created_at: Some(now),
        confirmed_at: None,
        failed_at: None,
        retired_at: None,
        revoked_at: None,
    }
}

/// What starting a rotation of the credential `alias` with a salt at `now` does.
pub open spec fn rotation_effect(
    before: RecipesFile,
    after: RecipesFile,
    alias: Seq<char>,
    salt: PublicSalt,
    now: String,
    r: Result<u32, LifecycleError>,
) -> bool {
    &&& after.format == before.format
    &&& after.seeds == before.seeds
    &&& match first_alias(before.credentials@, alias) {
        None => {
            &&& r matches Err(LifecycleError::AccountNotFound(a)) && a@ == alias
            &&& after.credentials@ == before.credentials@
        },
        Some(i) => {
            let vs = before.credentials@[i].versions@;
            if first_status(vs, VersionStatus::Pending) is Some {
                &&& r matches Err(LifecycleError::PendingAlreadyExists(a)) && a@ == alias
                &&& after.credentials@ == before.credentials@
            } else {
                match first_status(vs, VersionStatus::Active) {
                    None => {
                        &&& r matches Err(LifecycleError::NoActiveVersion(a)) && a@ == alias
                        &&& after.credentials@ == before.credentials@
                    },
                    Some(a) => {
                        &&& r matches Ok(next) && next == max_number(vs) + 1
                        &&& versions_replaced(
                            before.credentials@,
                            after.credentials@,
                            i,
                            vs.push(rotated(vs[a], (max_number(vs) + 1) as u32, salt, now)),
                        )
                    },
                }
            }
        },
    }
}

/// The largest version number of some versions.
fn max_version_number(vs: &Vec<CredentialVersion>) -> (r: u32)
    ensures
        r == max_number(vs@),
{
    let mut m: u32 = 0;
    for k in 0..vs.len()
        invariant
            m == max_number(vs@.take(k as int)),
    {
        assert(vs@.take(k + 1).drop_last() =~= vs@.take(k as int));
        if vs[k].number > m {
            m = vs[k].number;
        }
    }
    assert(vs@.take(vs.len() as int) =~= vs@);
    m
}

/// Starts a rotation: adds a pending version numbered one above every existing
/// version, derived from the active version with the given public salt, created at
/// the given time. Refused while a pending version exists or when none is active.
pub fn begin_rotation_with(recipes: &mut RecipesFile, alias: &str, salt: PublicSalt, now: String) -> (r: Result<u32, LifecycleError>)
    requires
        first_alias(old(recipes).credentials@, alias@) matches Some(i) ==> max_number(
            old(recipes).credentials@[i].versions@,
        ) < u32::MAX,
    ensures
        rotation_effect(*old(recipes), *final(recipes), alias@, salt, now, r),
{
    let i = match find_record_index(recipes, alias) {
        Some(i) => i,
        None => return Err(LifecycleError::AccountNotFound(alias.to_owned())),
    };
    if find_status(&recipes.credentials[i].versions, VersionStatus::Pending).is_some() {
        return Err(LifecycleError::PendingAlreadyExists(alias.to_owned()));
    }
    let a = match find_status(&recipes.credentials[i].versions, VersionStatus::Active) {
        Some(a) => a,
        None => return Err(LifecycleError::NoActiveVersion(alias.to_owned())),
    };
    let active = recipes.credentials[i].versions[a].clone();
    let next = max_version_number(&recipes.credentials[i].versions) + 1;
    let mut updated = crate::model::clone_versions(&recipes.credentials[i].versions);
    updated.push(
        CredentialVersion {
            number: next,
            status: VersionStatus::Pending,
            seed: active.seed,
            scheme: active.scheme,
            public_salt: salt,
            profile_snapshot: active.profile_snapshot,
            created_at: Some(now),
            confirmed_at: None,
            failed_at: None,
            retired_at: None,
            revoked_at: None,
        },
    );
    set_versions(recipes, i, updated);
    Ok(next)
}

/// Starts a rotation now, with a fresh random 16-byte public salt.
pub fn begin_rotation(recipes: &mut RecipesFile, alias: &str) -> (r: Result<u32, LifecycleError>)
    requires
        first_alias(old(recipes).credentials@, alias@) matches Some(i) ==> max_number(
            old(recipes).credentials@[i].versions@,
        ) < u32::MAX,
    ensures
        exists|salt: PublicSalt, now: String|
            fresh_salt(salt) && clock_timestamp(now) && rotation_effect(*old(recipes), *final(recipes), alias@, salt, now, r),
{
    let salt = salt_from_bytes(crate::primitives::random_16());
    let now = now_rfc3339();
    begin_rotation_with(recipes, alias, salt, now)
}

// ---------------------------------------------------------------------------
// Laws of the lifecycle

/// No two versions share a number.
pub open spec fn distinct_numbers(vs: Seq<CredentialVersion>) -> bool {
    forall|a: int, b: int| 0 <= a < b < vs.len() ==> #[trigger] vs[a].number != #[trigger] vs[b].number
}

/// Confirming a rotation, among versions with distinct numbers, makes the pending
/// version the only active one, and every status it changes moves along the
/// lifecycle table (pending to active, active to retired).
pub proof fn law_confirm_leaves_one_active(vs: Seq<CredentialVersion>, j: int, now: String)
    requires
        distinct_numbers(vs),
        first_status(vs, VersionStatus::Pending) == Some(j),
    ensures
        ({
            let ws = vs.map_values(|v: CredentialVersion| confirmed(v, vs[j].number, now));
            &&& ws.len() == vs.len()
            &&& ws[j].status == VersionStatus::Active
            &&& forall|k: int| 0 <= k < ws.len() && k != j ==> (#[trigger] ws[k]).status
                != VersionStatus::Active
            &&& forall|k: int|
                0 <= k < ws.len() && (#[trigger] ws[k]).status != vs[k].status ==> transition_allowed(
                    vs[k].status,
                    ws[k].status,
                )
        }),
{
    let p = vs[j].number;
    assert(is_first_status(vs, VersionStatus::Pending, j));
    let ws = vs.map_values(|v: CredentialVersion| confirmed(v, p, now));
    assert forall|k: int| 0 <= k < ws.len() && k != j implies (#[trigger] ws[k]).status
        != VersionStatus::Active by {
        if k < j {
            assert(vs[k].number != vs[j].number);
        } else {
            assert(vs[j].number != vs[k].number);
        }
    }
    assert forall|k: int|
        0 <= k < ws.len() && (#[trigger] ws[k]).status != vs[k].status implies transition_allowed(
        vs[k].status,
        ws[k].status,
    ) by {
        if k != j {
            if k < j {
                assert(vs[k].number != vs[j].number);
            } else {
                assert(vs[j].number != vs[k].number);
            }
        }
    }
}

/// Aborting a rotation changes only the pending version, from pending to failed,
/// as the lifecycle table allows; the active version is kept.
pub proof fn law_abort_keeps_others(vs: Seq<CredentialVersion>, j: int, now: String)
    requires
        first_status(vs, VersionStatus::Pending) == Some(j),
    ensures
        ({
            let ws = vs.update(j, failed(vs[j], now));
            &&& ws.len() == vs.len()
            &&& forall|k: int| 0 <= k < vs.len() && k != j ==> #[trigger] ws[k] == vs[k]
            &&& transition_allowed(vs[j].status, ws[j].status)
        }),
{
    assert(is_first_status(vs, VersionStatus::Pending, j));
}

/// The largest version number bounds every version number.
proof fn lemma_max_number(vs: Seq<CredentialVersion>, k: int)
    requires
        0 <= k < vs.len(),
    ensures
        vs[k].number <= max_number(vs),
    decreases vs.len(),
{
    if k < vs.len() - 1 {
        lemma_max_number(vs.drop_last(), k);
    }
}

/// A rotation's new version number is greater than every existing version number,
/// so rotations never reuse a number.
pub proof fn law_rotation_number_is_fresh(vs: Seq<CredentialVersion>)
    ensures
        forall|k: int| 0 <= k < vs.len() ==> (#[trigger] vs[k]).number < max_number(vs) + 1,
{
    assert forall|k: int| 0 <= k < vs.len() implies (#[trigger] vs[k]).number < max_number(vs) + 1 by {
        lemma_max_number(vs, k);
    }
}

/// Counting versions with a status over a sequence with one more version.
proof fn lemma_count_push(vs: Seq<CredentialVersion>, v: CredentialVersion, st: VersionStatus)
    ensures
        crate::validate::count_status(vs.push(v), st) == crate::validate::count_status(vs, st) + if v.status == st {
            1int
        } else {
            0int
        },
{
    assert(vs.push(v).drop_last() =~= vs);
}

/// A status that has no first occurrence occurs nowhere.
proof fn lemma_no_status(vs: Seq<CredentialVersion>, st: VersionStatus)
    requires
        first_status(vs, st) is None,
    ensures
        forall|j: int| 0 <= j < vs.len() ==> (#[trigger] vs[j]).status != st,
    decreases vs.len(),
{
    if vs.len() > 0 {
        let w = vs.drop_last();
        assert(first_status(w, st) is None) by {
            if exists|j: int| is_first_status(w, st, j) {
                let j = choose|j: int| is_first_status(w, st, j);
                assert forall|k: int| 0 <= k < j implies (#[trigger] vs[k]).status != st by {
                    assert(w[k] == vs[k]);
                }
                assert(w[j] == vs[j]);
                assert(is_first_status(vs, st, j));
            }
        }
        lemma_no_status(w, st);
        assert forall|j: int| 0 <= j < vs.len() implies (#[trigger] vs[j]).status != st by {
            if j < vs.len() - 1 {
                assert(w[j] == vs[j]);
            } else if vs[j].status == st {
                assert forall|k: int| 0 <= k < j implies (#[trigger] vs[k]).status != st by {
                    assert(w[k] == vs[k]);
                }
                assert(is_first_status(vs, st, j));
            }
        }
    }
}

/// No version has a status that occurs first nowhere.
proof fn lemma_count_none(vs: Seq<CredentialVersion>, st: VersionStatus)
    requires
        forall|j: int| 0 <= j < vs.len() ==> (#[trigger] vs[j]).status != st,
    ensures
        crate::validate::count_status(vs, st) == 0,
    decreases vs.len(),
{
    if vs.len() > 0 {
        let w = vs.drop_last();
        assert forall|j: int| 0 <= j < w.len() implies (#[trigger] w[j]).status != st by {
            assert(w[j] == vs[j]);
        }
        lemma_count_none(w, st);
        assert(vs.last() == vs[vs.len() - 1]);
    }
}

/// A rotation, which is refused while a version is pending, leaves exactly one
/// pending version: the new one.
pub proof fn law_rotation_adds_one_pending(vs: Seq<CredentialVersion>, a: int, salt: PublicSalt, now: String)
    requires
        first_status(vs, VersionStatus::Pending) is None,
        first_status(vs, VersionStatus::Active) == Some(a),
    ensures
        crate::validate::count_status(
            vs.push(rotated(vs[a], (max_number(vs) + 1) as u32, salt, now)),
            VersionStatus::Pending,
        ) == 1,
{
    lemma_no_status(vs, VersionStatus::Pending);
    lemma_count_none(vs, VersionStatus::Pending);
    lemma_count_push(vs, rotated(vs[a], (max_number(vs) + 1) as u32, salt, now), VersionStatus::Pending);
}

/// Only derivable versions are selected: the active one by default, a pending one
/// only when asked for, a retired one only by number with `allow_retired`; failed
/// and revoked versions never.
pub proof fn law_selected_version_is_derivable(vs: Seq<CredentialVersion>, req: VersionRequest, j: int)
    requires
        selected_version(vs, req) == Ok::<int, nat>(j),
    ensures
        0 <= j < vs.len(),
        vs[j].status != VersionStatus::Failed,
        vs[j].status != VersionStatus::Revoked,
        req.version is None && !req.pending ==> vs[j].status == VersionStatus::Active,
        req.version is None && req.pending ==> vs[j].status == VersionStatus::Pending,
        req.version matches Some(n) ==> vs[j].status == VersionStatus::Retired && req.allow_retired
            && vs[j].number == n,
{
    match req.version {
        Some(n) => {
            let k = first_number(vs, n)->0;
            assert(is_first_number(vs, n, k));
        },
        None => {
            if req.pending {
                assert(is_first_status(vs, VersionStatus::Pending, j));
            } else {
                assert(is_first_status(vs, VersionStatus::Active, j));
            }
        },
    }
}

} // verus!
