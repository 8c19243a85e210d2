//! Durable Seedpass concepts: identities, credential versions, recipe and
//! directory files, and the derivation-critical view of a version.
use vstd::prelude::*;
use crate::text::{
    by_key, key_order, key_order_exec, lemma_key_order_upto, lemma_text_lt_total, lemma_text_lt_transitive, text_less, text_lt,
};

verus! {

pub const SCHEME_V1: &'static str = "seedpass-v1";
pub const RECIPES_FORMAT_V1: &'static str = "seedpass-recipes-v1";
pub const DIRECTORY_FORMAT_V1: &'static str = "seedpass-directory-v1";
pub const RECIPE_FORMAT_V1: &'static str = "seedpass-recipe-v1";

/// Errors of directory edits.
#[derive(Debug, PartialEq, Eq)]
pub enum CoreError {
    AliasNotFound(String),
    AliasAlreadyExists(String),
}

/// The text of a directory edit error.
pub open spec fn core_message(e: CoreError) -> Seq<char> {
    match e {
        CoreError::AliasNotFound(a) => "alias not found: "@ + a@,
        CoreError::AliasAlreadyExists(a) => "alias already exists: "@ + a@,
    }
}

impl CoreError {
    /// The error's text.
    pub fn message(&self) -> (r: String)
        ensures
            r@ == core_message(*self),
    {
        let mut out = String::new();
        match self {
            CoreError::AliasNotFound(a) => {
                out.append("alias not found: ");
                out.append(a.as_str());
            },
            CoreError::AliasAlreadyExists(a) => {
                out.append("alias already exists: ");
                out.append(a.as_str());
            },
        }
        out
    }
}

/// How serious a diagnostic is.
#[derive(Debug, Clone, Copy, PartialEq, Eq, Structural)]
pub enum Severity {
    HardError,
    Warning,
}

/// One validation finding.
#[derive(Debug, PartialEq, Eq)]
pub struct Diagnostic {
    pub severity: Severity,
    pub message: String,
}

/// A diagnostic as a mathematical value: its severity and message text.
pub type DiagView = (Severity, Seq<char>);

impl View for Diagnostic {
    type V = DiagView;

    open spec fn view(&self) -> DiagView {
        (self.severity, self.message@)
    }
}

/// The mathematical value of a list of diagnostics.
pub open spec fn diags_view(d: Seq<Diagnostic>) -> Seq<DiagView> {
    d.map_values(|x: Diagnostic| x@)
}

/// A hard-error diagnostic with the given message.
pub open spec fn hard(message: Seq<char>) -> DiagView {
    (Severity::HardError, message)
}

/// Whether a diagnostic value is a hard error.
pub open spec fn is_hard(d: DiagView) -> bool {
    d.0 == Severity::HardError
}

/// Whether a diagnostic value is a warning.
pub open spec fn is_warning(d: DiagView) -> bool {
    d.0 == Severity::Warning
}

impl Clone for Diagnostic {
    fn clone(&self) -> (r: Self)
        ensures
            r == *self,
    {
        Diagnostic { severity: self.severity, message: self.message.clone() }
    }
}

impl Diagnostic {
    pub fn hard(message: String) -> (r: Self)
        ensures
            r@ == hard(message@),
    {
        Diagnostic { severity: Severity::HardError, message }
    }

    pub fn warning(message: String) -> (r: Self)
        ensures
            r@ == (Severity::Warning, message@),
    {
        Diagnostic { severity: Severity::Warning, message }
    }
}

/// Pushes a diagnostic list onto another, keeping the order.
pub fn extend_diags(out: &mut Vec<Diagnostic>, more: Vec<Diagnostic>)
    ensures
        diags_view(final(out)@) == diags_view(old(out)@) + diags_view(more@),
{
    let mut more = more;
    let ghost start = diags_view(out@);
    let ghost extra = diags_view(more@);
    out.append(&mut more);
    assert(diags_view(out@) =~= start + extra);
}


/// Immutable durable identity of a credential.
#[derive(Debug, PartialEq, Eq, PartialOrd, Ord, Hash)]
pub struct CredentialUid(pub String);

impl View for CredentialUid {
    type V = Seq<char>;

    open spec fn view(&self) -> Seq<char> {
        self.0@
    }
}

impl Clone for CredentialUid {
    fn clone(&self) -> (r: Self)
        ensures
            r == *self,
    {
        CredentialUid(self.0.clone())
    }
}

impl CredentialUid {
    pub fn new(value: &str) -> (r: Self)
        ensures
            r.0@ == value@,
    {
        CredentialUid(value.to_owned())
    }

    pub fn as_str(&self) -> (r: &str)
        ensures
            r@ == self.0@,
    {
        self.0.as_str()
    }
}

/// Mutable local handle of a credential.
#[derive(Debug, PartialEq, Eq, PartialOrd, Ord, Hash)]
pub struct Alias(pub String);

impl View for Alias {
    type V = Seq<char>;

    open spec fn view(&self) -> Seq<char> {
        self.0@
    }
}

impl Clone for Alias {
    fn clone(&self) -> (r: Self)
        ensures
            r == *self,
    {
        Alias(self.0.clone())
    }
}

impl Alias {
    pub fn new(value: &str) -> (r: Self)
        ensures
            r.0@ == value@,
    {
        Alias(value.to_owned())
    }

    pub fn as_str(&self) -> (r: &str)
        ensures
            r@ == self.0@,
    {
        self.0.as_str()
    }
}

/// Name of a seed record in `recipes.yaml`.
#[derive(Debug, PartialEq, Eq, PartialOrd, Ord, Hash)]
pub struct SeedLabel(pub String);

impl View for SeedLabel {
    type V = Seq<char>;

    open spec fn view(&self) -> Seq<char> {
        self.0@
    }
}

impl Clone for SeedLabel {
    fn clone(&self) -> (r: Self)
        ensures
            r == *self,
    {
        SeedLabel(self.0.clone())
    }
}

impl SeedLabel {
    pub fn new(value: &str) -> (r: Self)
        ensures
            r.0@ == value@,
    {
        SeedLabel(value.to_owned())
    }

    pub fn as_str(&self) -> (r: &str)
        ensures
            r@ == self.0@,
    {
        self.0.as_str()
    }
}

/// Public display fingerprint of a root seed.
#[derive(Debug, PartialEq, Eq, PartialOrd, Ord, Hash)]
pub struct SeedFingerprint(pub String);

impl View for SeedFingerprint {
    type V = Seq<char>;

    open spec fn view(&self) -> Seq<char> {
        self.0@
    }
}

impl Clone for SeedFingerprint {
    fn clone(&self) -> (r: Self)
        ensures
            r == *self,
    {
        SeedFingerprint(self.0.clone())
    }
}

impl SeedFingerprint {
    pub fn new(value: &str) -> (r: Self)
        ensures
            r.0@ == value@,
    {
        SeedFingerprint(value.to_owned())
    }

    pub fn as_str(&self) -> (r: &str)
        ensures
            r@ == self.0@,
    {
        self.0.as_str()
    }
}

/// Derivation scheme identifier.
#[derive(Debug, PartialEq, Eq, PartialOrd, Ord, Hash)]
pub struct Scheme(pub String);

impl View for Scheme {
    type V = Seq<char>;

    open spec fn view(&self) -> Seq<char> {
        self.0@
    }
}

impl Clone for Scheme {
    fn clone(&self) -> (r: Self)
        ensures
            r == *self,
    {
        Scheme(self.0.clone())
    }
}

impl Scheme {
    pub fn new(value: &str) -> (r: Self)
        ensures
            r.0@ == value@,
    {
        Scheme(value.to_owned())
    }

    pub fn as_str(&self) -> (r: &str)
        ensures
            r@ == self.0@,
    {
        self.0.as_str()
    }
}

/// Public per-version salt, base64url without padding.
#[derive(Debug, PartialEq, Eq, PartialOrd, Ord, Hash)]
pub struct PublicSalt(pub String);

impl View for PublicSalt {
    type V = Seq<char>;

    open spec fn view(&self) -> Seq<char> {
        self.0@
    }
}

impl Clone for PublicSalt {
    fn clone(&self) -> (r: Self)
        ensures
            r == *self,
    {
        PublicSalt(self.0.clone())
    }
}

impl PublicSalt {
    pub fn new(value: &str) -> (r: Self)
        ensures
            r.0@ == value@,
    {
        PublicSalt(value.to_owned())
    }

    pub fn as_str(&self) -> (r: &str)
        ensures
            r@ == self.0@,
    {
        self.0.as_str()
    }
}


/// What a credential is used for.
#[derive(Debug, Clone, Copy, PartialEq, Eq, Structural)]
pub enum Purpose {
    WebPassword,
}

/// Lifecycle status for one credential version.
#[derive(Debug, Clone, Copy, PartialEq, Eq, Structural)]
pub enum VersionStatus {
    Pending,
    Active,
    Retired,
    Failed,
    Revoked,
}

/// The lifecycle table: pending may become active or failed, active may become
/// retired or revoked, retired may become revoked; failed and revoked are terminal.
pub open spec fn transition_allowed(from: VersionStatus, to: VersionStatus) -> bool {
    match (from, to) {
        (VersionStatus::Pending, VersionStatus::Active) => true,
        (VersionStatus::Pending, VersionStatus::Failed) => true,
        (VersionStatus::Active, VersionStatus::Retired) => true,
        (VersionStatus::Active, VersionStatus::Revoked) => true,
        (VersionStatus::Retired, VersionStatus::Revoked) => true,
        _ => false,
    }
}

impl VersionStatus {
    /// Returns whether a transition is allowed by the lifecycle state machine.
    pub fn can_transition_to(self, next: Self) -> (r: bool)
        ensures
            r == transition_allowed(self, next),
    {
        match (self, next) {
            (VersionStatus::Pending, VersionStatus::Active) => true,
            (VersionStatus::Pending, VersionStatus::Failed) => true,
            (VersionStatus::Active, VersionStatus::Retired) => true,
            (VersionStatus::Active, VersionStatus::Revoked) => true,
            (VersionStatus::Retired, VersionStatus::Revoked) => true,
            _ => false,
        }
    }
}

/// Failed and revoked versions never move to any status, and no status moves back
/// to pending.
pub proof fn lemma_terminal_statuses(next: VersionStatus, from: VersionStatus)
    ensures
        !transition_allowed(VersionStatus::Failed, next),
        !transition_allowed(VersionStatus::Revoked, next),
        !transition_allowed(from, VersionStatus::Pending),
        !transition_allowed(from, from),
{
}

/// Password rules captured in a credential version.
#[derive(Debug, PartialEq, Eq)]
pub enum ProfileSnapshot {
    Password {
        length: u16,
        min_uppercase: u16,
        min_lowercase: u16,
        min_digits: u16,
        min_symbols: u16,
        symbols: String,
    },
}

impl Clone for ProfileSnapshot {
    fn clone(&self) -> (r: Self)
        ensures
            r == *self,
    {
        match self {
            ProfileSnapshot::Password {
                length,
                min_uppercase,
                min_lowercase,
                min_digits,
                min_symbols,
                symbols,
            } => ProfileSnapshot::Password {
                length: *length,
                min_uppercase: *min_uppercase,
                min_lowercase: *min_lowercase,
                min_digits: *min_digits,
                min_symbols: *min_symbols,
                symbols: symbols.clone(),
            },
        }
    }
}

/// A copy of an optional string.
pub fn clone_opt_string(s: &Option<String>) -> (r: Option<String>)
    ensures
        r == *s,
{
    match s {
        Some(x) => Some(x.clone()),
        None => None,
    }
}

/// A copy of a list of strings.
pub fn clone_strings(v: &Vec<String>) -> (r: Vec<String>)
    ensures
        r@ == v@,
{
    let mut out: Vec<String> = Vec::new();
    for i in 0..v.len()
        invariant
            out@ == v@.take(i as int),
    {
        out.push(v[i].clone());
        assert(out@ =~= v@.take(i + 1));
    }
    assert(v@.take(v.len() as int) =~= v@);
    out
}

/// One version of a credential: its lifecycle status and derivation inputs.
#[derive(Debug, PartialEq, Eq)]
pub struct CredentialVersion {
    pub number: u32,
    pub status: VersionStatus,
    pub seed: SeedLabel,
    pub scheme: Scheme,
    pub public_salt: PublicSalt,
    pub profile_snapshot: ProfileSnapshot,
    pub created_at: Option<String>,
    pub confirmed_at: Option<String>,
    pub failed_at: Option<String>,
    pub retired_at: Option<String>,
    pub revoked_at: Option<String>,
}

impl Clone for CredentialVersion {
    fn clone(&self) -> (r: Self)
        ensures
            r == *self,
    {
        CredentialVersion {
            number: self.number,
            status: self.status,
            seed: self.seed.clone(),
            scheme: self.scheme.clone(),
            public_salt: self.public_salt.clone(),
            profile_snapshot: self.profile_snapshot.clone(),
            created_at: clone_opt_string(&self.created_at),
            confirmed_at: clone_opt_string(&self.confirmed_at),
            failed_at: clone_opt_string(&self.failed_at),
            retired_at: clone_opt_string(&self.retired_at),
            revoked_at: clone_opt_string(&self.revoked_at),
        }
    }
}

/// A credential: its identity, handle, purpose and versions.
#[derive(Debug, PartialEq, Eq)]
pub struct CredentialRecord {
    pub uid: CredentialUid,
    pub alias: Alias,
    pub purpose: Purpose,
    pub versions: Vec<CredentialVersion>,
}

/// A copy of a list of credential versions.
pub fn clone_versions(v: &Vec<CredentialVersion>) -> (r: Vec<CredentialVersion>)
    ensures
        r@ == v@,
{
    let mut out: Vec<CredentialVersion> = Vec::new();
    for i in 0..v.len()
        invariant
            out@ == v@.take(i as int),
    {
        out.push(v[i].clone());
        assert(out@ =~= v@.take(i + 1));
    }
    assert(v@.take(v.len() as int) =~= v@);
    out
}

impl Clone for CredentialRecord {
    fn clone(&self) -> (r: Self)
        ensures
            r.uid == self.uid,
            r.alias == self.alias,
            r.purpose == self.purpose,
            r.versions@ == self.versions@,
    {
        CredentialRecord {
            uid: self.uid.clone(),
            alias: self.alias.clone(),
            purpose: self.purpose,
            versions: clone_versions(&self.versions),
        }
    }
}

/// Where a seed file lives and which fingerprint it must decrypt to.
#[derive(Debug, PartialEq, Eq)]
pub struct SeedRecord {
    pub fingerprint: SeedFingerprint,
    pub path: String,
}

impl Clone for SeedRecord {
    fn clone(&self) -> (r: Self)
        ensures
            r == *self,
    {
        SeedRecord { fingerprint: self.fingerprint.clone(), path: self.path.clone() }
    }
}

/// No key occurs twice in an association list.
pub open spec fn distinct_keys<K: View<V = Seq<char>>, V>(entries: Seq<(K, V)>) -> bool {
    forall|i: int, j: int|
        0 <= i < j < entries.len() ==> #[trigger] entries[i].0@ != #[trigger] entries[j].0@
}

/// The positions of seed records in the order of their labels, the order of the
/// map that `recipes.yaml` holds them in.
pub fn seed_order(seeds: &Vec<(SeedLabel, SeedRecord)>) -> (r: Vec<usize>)
    ensures
        r@.len() == seeds@.len(),
        by_key(seeds@).len() == seeds@.len(),
        forall|t: int| 0 <= t < r@.len() ==> #[trigger] r@[t] < seeds@.len(),
        forall|t: int| 0 <= t < r@.len() ==> seeds@[#[trigger] r@[t] as int] == by_key(seeds@)[t],
{
    let ghost ks = seeds@.map_values(|e: (SeedLabel, SeedRecord)| e.0@);
    let mut keys: Vec<&str> = Vec::new();
    for i in 0..seeds.len()
        invariant
            ks == seeds@.map_values(|e: (SeedLabel, SeedRecord)| e.0@),
            keys@.map_values(|k: &str| k@) == ks.take(i as int),
    {
        let k = seeds[i].0.as_str();
        assert(k@ == ks[i as int]);
        let ghost before = keys@;
        keys.push(k);
        assert(keys@ == before.push(k));
        assert(before.map_values(|k: &str| k@).len() == i);
        assert(before.len() == i);
        assert(keys@.len() == i + 1);
        assert forall|x: int| 0 <= x < i + 1 implies #[trigger] keys@[x]@ == ks[x] by {
            if x < i {
                assert(before.map_values(|k: &str| k@)[x] == ks.take(i as int)[x]);
            }
        }
        assert(keys@.map_values(|k: &str| k@) =~= ks.take(i + 1));
    }
    assert(ks.take(seeds.len() as int) =~= ks);
    let r = key_order_exec(&keys);
    proof {
        lemma_key_order_upto(ks, ks.len());
    }
    r
}

/// The positions of directory entries in the order of their UIDs, the order of the
/// map that `directory.yaml` holds them in.
pub fn entry_order(entries: &Vec<(CredentialUid, DirectoryEntry)>) -> (r: Vec<usize>)
    ensures
        r@.len() == entries@.len(),
        by_key(entries@).len() == entries@.len(),
        forall|t: int| 0 <= t < r@.len() ==> #[trigger] r@[t] < entries@.len(),
        forall|t: int| 0 <= t < r@.len() ==> entries@[#[trigger] r@[t] as int] == by_key(entries@)[t],
{
    let ghost ks = entries@.map_values(|e: (CredentialUid, DirectoryEntry)| e.0@);
    let mut keys: Vec<&str> = Vec::new();
    for i in 0..entries.len()
        invariant
            ks == entries@.map_values(|e: (CredentialUid, DirectoryEntry)| e.0@),
            keys@.map_values(|k: &str| k@) == ks.take(i as int),
    {
        let k = entries[i].0.as_str();
        assert(k@ == ks[i as int]);
        let ghost before = keys@;
        keys.push(k);
        assert(keys@ == before.push(k));
        assert(before.map_values(|k: &str| k@).len() == i);
        assert(before.len() == i);
        assert(keys@.len() == i + 1);
        assert forall|x: int| 0 <= x < i + 1 implies #[trigger] keys@[x]@ == ks[x] by {
            if x < i {
                assert(before.map_values(|k: &str| k@)[x] == ks.take(i as int)[x]);
            }
        }
        assert(keys@.map_values(|k: &str| k@) =~= ks.take(i + 1));
    }
    assert(ks.take(entries.len() as int) =~= ks);
    let r = key_order_exec(&keys);
    proof {
        lemma_key_order_upto(ks, ks.len());
    }
    r
}

/// Listing an association list with distinct keys by key gives each entry once,
/// with strictly ascending keys: the order in which a map keyed by them is walked.
pub proof fn law_by_key_is_map_order<K: View<V = Seq<char>>, V>(entries: Seq<(K, V)>)
    requires
        distinct_keys(entries),
    ensures
        by_key(entries).len() == entries.len(),
        forall|t: int, u: int|
            0 <= t < u < entries.len() ==> text_lt(by_key(entries)[t].0@, by_key(entries)[u].0@),
        forall|i: int| 0 <= i < entries.len() ==> by_key(entries).contains(entries[i]),
{
    let ks = entries.map_values(|e: (K, V)| e.0@);
    lemma_key_order_upto(ks, ks.len());
    let ord = key_order(ks);
    let b = by_key(entries);
    assert forall|t: int, u: int| 0 <= t < u < entries.len() implies text_lt(b[t].0@, b[u].0@) by {
        assert(b[t] == entries[ord[t]] && b[u] == entries[ord[u]]);
        assert(ord[t] != ord[u]);
        assert(ks[ord[t]] == entries[ord[t]].0@ && ks[ord[u]] == entries[ord[u]].0@);
        if ord[t] < ord[u] {
            assert(entries[ord[t]].0@ != entries[ord[u]].0@);
        } else {
            assert(entries[ord[u]].0@ != entries[ord[t]].0@);
        }
        assert(!text_lt(ks[ord[u]], ks[ord[t]]));
        lemma_text_lt_total(ks[ord[t]], ks[ord[u]]);
    }
    assert forall|i: int| 0 <= i < entries.len() implies b.contains(entries[i]) by {
        assert(ord.contains(i));
        let t = choose|t: int| 0 <= t < ord.len() && ord[t] == i;
        assert(b[t] == entries[i]);
    }
}

/// `recipes.yaml`: seed records (by label) and credential records.
#[derive(Debug, PartialEq, Eq)]
pub struct RecipesFile {
    pub format: String,
    pub seeds: Vec<(SeedLabel, SeedRecord)>,
    pub credentials: Vec<CredentialRecord>,
}

/// Two records hold the same identity, handle, purpose and versions.
pub open spec fn same_record(a: CredentialRecord, b: CredentialRecord) -> bool {
    &&& a.uid == b.uid
    &&& a.alias == b.alias
    &&& a.purpose == b.purpose
    &&& a.versions@ == b.versions@
}

/// Two lists of records agree record by record.
pub open spec fn same_records(a: Seq<CredentialRecord>, b: Seq<CredentialRecord>) -> bool {
    &&& a.len() == b.len()
    &&& forall|i: int| 0 <= i < a.len() ==> same_record(#[trigger] a[i], b[i])
}

/// A copy of a list of seed records.
pub fn clone_seed_pairs(v: &Vec<(SeedLabel, SeedRecord)>) -> (r: Vec<(SeedLabel, SeedRecord)>)
    ensures
        r@ == v@,
{
    let mut out: Vec<(SeedLabel, SeedRecord)> = Vec::new();
    for i in 0..v.len()
        invariant
            out@ == v@.take(i as int),
    {
        out.push((v[i].0.clone(), v[i].1.clone()));
        assert(out@ =~= v@.take(i + 1));
    }
    assert(v@.take(v.len() as int) =~= v@);
    out
}

/// A copy of a list of credential records.
pub fn clone_records(v: &Vec<CredentialRecord>) -> (r: Vec<CredentialRecord>)
    ensures
        same_records(r@, v@),
{
    let mut out: Vec<CredentialRecord> = Vec::new();
    for i in 0..v.len()
        invariant
            out@.len() == i,
            forall|j: int| 0 <= j < i ==> same_record(#[trigger] out@[j], v@[j]),
    {
        out.push(v[i].clone());
    }
    out
}

impl Clone for RecipesFile {
    fn clone(&self) -> (r: Self)
        ensures
            r.format == self.format,
            r.seeds@ == self.seeds@,
            same_records(r.credentials@, self.credentials@),
    {
        RecipesFile {
            format: self.format.clone(),
            seeds: clone_seed_pairs(&self.seeds),
            credentials: clone_records(&self.credentials),
        }
    }
}

impl RecipesFile {
    /// Seed labels are unique, as in a map.
    pub open spec fn wf(&self) -> bool {
        distinct_keys(self.seeds@)
    }
}

/// `directory.yaml` metadata for one credential.
#[derive(Debug, PartialEq, Eq)]
pub struct DirectoryEntry {
    pub alias: Alias,
    pub service: Option<String>,
    pub username: Option<String>,
    pub tags: Vec<String>,
}

impl Clone for DirectoryEntry {
    fn clone(&self) -> (r: Self)
        ensures
            r.alias == self.alias,
            r.service == self.service,
            r.username == self.username,
            r.tags@ == self.tags@,
    {
        DirectoryEntry {
            alias: self.alias.clone(),
            service: clone_opt_string(&self.service),
            username: clone_opt_string(&self.username),
            tags: clone_strings(&self.tags),
        }
    }
}

/// Two directory entries hold the same alias and metadata.
pub open spec fn same_entry(a: DirectoryEntry, b: DirectoryEntry) -> bool {
    &&& a.alias == b.alias
    &&& a.service == b.service
    &&& a.username == b.username
    &&& a.tags@ == b.tags@
}

/// Two lists of directory entries agree entry by entry.
pub open spec fn same_entries(a: Seq<(CredentialUid, DirectoryEntry)>, b: Seq<(CredentialUid, DirectoryEntry)>) -> bool {
    &&& a.len() == b.len()
    &&& forall|i: int| 0 <= i < a.len() ==> (#[trigger] a[i]).0 == b[i].0 && same_entry(a[i].1, b[i].1)
}

/// `directory.yaml`: mutable metadata keyed by credential UID.
#[derive(Debug, PartialEq, Eq)]
pub struct DirectoryFile {
    pub format: String,
    pub entries: Vec<(CredentialUid, DirectoryEntry)>,
}

impl Clone for DirectoryFile {
    fn clone(&self) -> (r: Self)
        ensures
            r.format == self.format,
            same_entries(r.entries@, self.entries@),
    {
        let mut entries: Vec<(CredentialUid, DirectoryEntry)> = Vec::new();
        for i in 0..self.entries.len()
            invariant
                entries@.len() == i,
                forall|j: int|
                    0 <= j < i ==> (#[trigger] entries@[j]).0 == self.entries@[j].0 && same_entry(
                        entries@[j].1,
                        self.entries@[j].1,
                    ),
        {
            entries.push((self.entries[i].0.clone(), self.entries[i].1.clone()));
        }
        DirectoryFile { format: self.format.clone(), entries }
    }
}

impl DirectoryFile {
    /// UIDs are unique, as in a map.
    pub open spec fn wf(&self) -> bool {
        distinct_keys(self.entries@)
    }
}

/// A named password profile.
#[derive(Debug, PartialEq, Eq)]
pub struct ProfileTemplate {
    pub profile: ProfileSnapshot,
}

impl Clone for ProfileTemplate {
    fn clone(&self) -> (r: Self)
        ensures
            r == *self,
    {
        ProfileTemplate { profile: self.profile.clone() }
    }
}

/// `profiles.yaml`: profile templates keyed by name.
#[derive(Debug, PartialEq, Eq)]
pub struct ProfilesFile {
    pub format: String,
    pub profiles: Vec<(String, ProfileTemplate)>,
}

impl Clone for ProfilesFile {
    fn clone(&self) -> (r: Self)
        ensures
            r.format == self.format,
            r.profiles@ == self.profiles@,
    {
        let mut profiles: Vec<(String, ProfileTemplate)> = Vec::new();
        for i in 0..self.profiles.len()
            invariant
                profiles@ == self.profiles@.take(i as int),
        {
            profiles.push((self.profiles[i].0.clone(), self.profiles[i].1.clone()));
            assert(profiles@ =~= self.profiles@.take(i + 1));
        }
        assert(self.profiles@.take(self.profiles.len() as int) =~= self.profiles@);
        ProfilesFile { format: self.format.clone(), profiles }
    }
}

impl ProfilesFile {
    /// Profile names are unique, as in a map.
    pub open spec fn wf(&self) -> bool {
        distinct_keys(self.profiles@)
    }
}

/// Derivation-critical view of a credential version.
///
/// This intentionally excludes alias, seed label, seed path, seed fingerprint,
/// service, username, tags, notes, timestamps, and profile template names.
#[derive(Debug, PartialEq, Eq)]
pub struct DerivationRecipeV1 {
    pub format: String,
    pub scheme: Scheme,
    pub credential_uid: CredentialUid,
    pub purpose: Purpose,
    pub version: u32,
    pub public_salt: PublicSalt,
    pub profile_snapshot: ProfileSnapshot,
}

impl Clone for DerivationRecipeV1 {
    fn clone(&self) -> (r: Self)
        ensures
            r == *self,
    {
        DerivationRecipeV1 {
            format: self.format.clone(),
            scheme: self.scheme.clone(),
            credential_uid: self.credential_uid.clone(),
            purpose: self.purpose,
            version: self.version,
            public_salt: self.public_salt.clone(),
            profile_snapshot: self.profile_snapshot.clone(),
        }
    }
}

impl DerivationRecipeV1 {
    pub fn from_record_version(record: &CredentialRecord, version: &CredentialVersion) -> (r: Self)
        ensures
            r.format@ == RECIPE_FORMAT_V1@,
            r.scheme == version.scheme,
            r.credential_uid == record.uid,
            r.purpose == record.purpose,
            r.version == version.number,
            r.public_salt == version.public_salt,
            r.profile_snapshot == version.profile_snapshot,
    {
        DerivationRecipeV1 {
            format: RECIPE_FORMAT_V1.to_owned(),
            scheme: version.scheme.clone(),
            credential_uid: record.uid.clone(),
            purpose: record.purpose,
            version: version.number,
            public_salt: version.public_salt.clone(),
            profile_snapshot: version.profile_snapshot.clone(),
        }
    }
}


/// Whether some directory entry has the alias `a`.
pub open spec fn has_alias(es: Seq<(CredentialUid, DirectoryEntry)>, a: Seq<char>) -> bool {
    exists|i: int| 0 <= i < es.len() && (#[trigger] es[i]).1.alias@ == a
}

/// Entry `k` comes before entry `j` in UID order: its UID is less, or the UIDs are
/// equal and `k` is the earlier entry.
pub open spec fn first_by_uid(es: Seq<(CredentialUid, DirectoryEntry)>, k: int, j: int) -> bool {
    text_lt(es[k].0@, es[j].0@) || (es[k].0@ == es[j].0@ && k < j)
}

/// `after` is `before` with the alias of entry `k` set to `alias`, all else kept.
pub open spec fn alias_set_at(
    before: Seq<(CredentialUid, DirectoryEntry)>,
    after: Seq<(CredentialUid, DirectoryEntry)>,
    k: int,
    alias: Seq<char>,
) -> bool {
    &&& after.len() == before.len()
    &&& 0 <= k < before.len()
    &&& forall|j: int| 0 <= j < before.len() && j != k ==> #[trigger] after[j] == before[j]
    &&& after[k].0 == before[k].0
    &&& after[k].1.alias@ == alias
    &&& after[k].1.service == before[k].1.service
    &&& after[k].1.username == before[k].1.username
    &&& after[k].1.tags@ == before[k].1.tags@
}

/// What renaming the alias `old_alias` to `new_alias` does to directory entries:
/// it fails, changing nothing, when some entry already has `new_alias` or none has
/// `old_alias`; otherwise it renames the entry with `old_alias` whose UID comes first
/// in UID order (of equal UIDs, the earlier entry).
pub open spec fn alias_renamed(
    before: Seq<(CredentialUid, DirectoryEntry)>,
    after: Seq<(CredentialUid, DirectoryEntry)>,
    old_alias: Seq<char>,
    new_alias: Seq<char>,
    r: Result<(), CoreError>,
) -> bool {
    match r {
        Err(CoreError::AliasAlreadyExists(s)) => {
            &&& s@ == new_alias
            &&& has_alias(before, new_alias)
            &&& after == before
        },
        Err(CoreError::AliasNotFound(s)) => {
            &&& s@ == old_alias
            &&& !has_alias(before, new_alias)
            &&& !has_alias(before, old_alias)
            &&& after == before
        },
        Ok(()) => {
            &&& !has_alias(before, new_alias)
            &&& exists|k: int|
                {
                    &&& 0 <= k < before.len()
                    &&& (#[trigger] before[k]).1.alias@ == old_alias
                    &&& forall|j: int|
                        0 <= j < before.len() && j != k && (#[trigger] before[j]).1.alias@ == old_alias
                            ==> first_by_uid(before, k, j)
                    &&& alias_set_at(before, after, k, new_alias)
                }
        },
    }
}

impl DirectoryFile {
    /// Renames the first entry whose alias is `old` to `new`. Fails, changing
    /// nothing, when some entry already has the alias `new` or none has `old`.
    pub fn rename_alias(&mut self, old_alias: &Alias, new_alias: Alias) -> (r: Result<(), CoreError>)
        ensures
            final(self).format == old(self).format,
            alias_renamed(old(self).entries@, final(self).entries@, old_alias@, new_alias@, r),
    {
        let n = self.entries.len();
        for i in 0..n
            invariant
                n == self.entries.len(),
                forall|j: int| 0 <= j < i ==> (#[trigger] self.entries@[j]).1.alias@ != new_alias@,
        {
            if self.entries[i].1.alias.0 == new_alias.0 {
                return Err(CoreError::AliasAlreadyExists(new_alias.0));
            }
        }
        let mut found: Option<usize> = None;
        for i in 0..n
            invariant
                n == self.entries.len(),
                found is None ==> forall|j: int| 0 <= j < i ==> (#[trigger] self.entries@[j]).1.alias@ != old_alias@,
                found matches Some(k) ==> k < i && self.entries@[k as int].1.alias@ == old_alias@
                    && forall|j: int|
                    0 <= j < i && j != k && (#[trigger] self.entries@[j]).1.alias@ == old_alias@
                        ==> first_by_uid(self.entries@, k as int, j),
        {
            if self.entries[i].1.alias.0 == old_alias.0 {
                match found {
                    None => {
                        found = Some(i);
                    },
                    Some(k) => {
                        let es = &self.entries;
                        proof {
                            lemma_text_lt_total(es@[i as int].0@, es@[k as int].0@);
                        }
                        if text_less(es[i].0.as_str(), es[k].0.as_str()) {
                            proof {
                                assert forall|j: int|
                                    0 <= j < i + 1 && j != i && (#[trigger] es@[j]).1.alias@ == old_alias@
                                        implies first_by_uid(es@, i as int, j) by {
                                    if j != k as int && text_lt(es@[k as int].0@, es@[j].0@) {
                                        lemma_text_lt_transitive(es@[i as int].0@, es@[k as int].0@, es@[j].0@);
                                    }
                                }
                            }
                            found = Some(i);
                        }
                    },
                }
            }
        }
        match found {
            None => Err(CoreError::AliasNotFound(old_alias.0.clone())),
            Some(k) => {
                let ghost before = self.entries@;
                let (uid, entry) = self.entries.remove(k);
                let renamed = DirectoryEntry {
                    alias: new_alias,
                    service: entry.service,
                    username: entry.username,
                    tags: entry.tags,
                };
                self.entries.insert(k, (uid, renamed));
                assert(alias_set_at(before, self.entries@, k as int, new_alias@));
                Ok(())
            },
        }
    }
}

} // verus!
