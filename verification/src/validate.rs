//! Validation of recipe and directory files.
use vstd::prelude::*;
use crate::model::{
    diags_view, extend_diags, hard, is_hard, Severity, CredentialRecord, CredentialUid, CredentialVersion, DiagView,
    Diagnostic, DirectoryFile, RecipesFile, SeedLabel, SeedRecord, VersionStatus,
    DIRECTORY_FORMAT_V1, RECIPES_FORMAT_V1, SCHEME_V1, entry_order, seed_order,
};
use crate::primitives::{b64url_decode, base64url_decode, rfc3339_nanos, rfc3339_unix_nanos};
use crate::profile::diag_if;
use crate::text::{by_key, chars_of, decimal, push_decimal};

verus! {

// ---------------------------------------------------------------------------
// Tokens

/// `char::is_control`: the Unicode `Cc` category.
pub open spec fn is_control(c: char) -> bool {
    c <= '\x1f' || ('\x7f' <= c && c <= '\u{9f}')
}

/// A token is empty or holds a control character.
pub open spec fn bad_token(value: Seq<char>) -> bool {
    value.len() == 0 || exists|i: int| 0 <= i < value.len() && is_control(#[trigger] value[i])
}

/// Findings for a token named `kind`.
pub open spec fn token_diags(kind: Seq<char>, value: Seq<char>) -> Seq<DiagView> {
    diag_if(bad_token(value), hard(kind + " contains empty or control-character data"@))
}

fn control_char(c: char) -> (r: bool)
    ensures
        r == is_control(c),
{
    c <= '\x1f' || ('\x7f' <= c && c <= '\u{9f}')
}

/// Findings for a token: a hard error if it is empty or holds a control character.
pub fn validate_token(kind: &str, value: &str) -> (r: Vec<Diagnostic>)
    ensures
        diags_view(r@) == token_diags(kind@, value@),
{
    let chars = chars_of(value);
    let mut bad = chars.len() == 0;
    for i in 0..chars.len()
        invariant
            chars@ == value@,
            bad == (value@.len() == 0 || exists|j: int|
                0 <= j < i && is_control(#[trigger] value@[j])),
    {
        if control_char(chars[i]) {
            bad = true;
        }
    }
    let mut out: Vec<Diagnostic> = Vec::new();
    if bad {
        let mut m = String::new();
        m.append(kind);
        m.append(" contains empty or control-character data");
        out.push(Diagnostic::hard(m));
    }
    assert(diags_view(out@) =~= token_diags(kind@, value@));
    out
}

// ---------------------------------------------------------------------------
// Seed paths

/// A path split at every `/`.
pub open spec fn split_slash(p: Seq<char>) -> Seq<Seq<char>>
    decreases p.len(),
{
    if p.len() == 0 {
        seq![Seq::<char>::empty()]
    } else if p.last() == '/' {
        split_slash(p.drop_last()).push(Seq::<char>::empty())
    } else {
        let s = split_slash(p.drop_last());
        s.update(s.len() - 1, s.last().push(p.last()))
    }
}

pub proof fn lemma_split_slash_nonempty(p: Seq<char>)
    ensures
        split_slash(p).len() >= 1,
    decreases p.len(),
{
    if p.len() > 0 {
        lemma_split_slash_nonempty(p.drop_last());
    }
}

pub open spec fn seeds_text() -> Seq<char> {
    seq!['s', 'e', 'e', 'd', 's']
}

pub open spec fn dot() -> Seq<char> {
    seq!['.']
}

pub open spec fn dot_dot() -> Seq<char> {
    seq!['.', '.']
}

/// A workspace-relative path `seeds/...`: its first component is `seeds`, some
/// later component names something, and no component is `..` (so it is neither
/// absolute nor able to climb out of the workspace).
pub open spec fn safe_seed_path(p: Seq<char>) -> bool {
    let segs = split_slash(p);
    &&& segs[0] == seeds_text()
    &&& exists|i: int| 1 <= i < segs.len() && (#[trigger] segs[i]).len() > 0 && segs[i] != dot()
    &&& forall|i: int| 1 <= i < segs.len() ==> #[trigger] segs[i] != dot_dot()
}

pub(crate) fn seq_eq_chars(a: &Vec<char>, b: &Vec<char>) -> (r: bool)
    ensures
        r == (a@ == b@),
{
    if a.len() != b.len() {
        return false;
    }
    for i in 0..a.len()
        invariant
            a@.len() == b@.len(),
            forall|j: int| 0 <= j < i ==> a@[j] == b@[j],
    {
        if a[i] != b[i] {
            return false;
        }
    }
    assert(a@ =~= b@);
    true
}

/// The `/`-separated parts of a path, empty ones included.
pub(crate) fn split_path(value: &str) -> (r: Vec<Vec<char>>)
    ensures
        r@.map_values(|v: Vec<char>| v@) == split_slash(value@),
        r@.len() >= 1,
{
    let chars = chars_of(value);
    let mut segs: Vec<Vec<char>> = Vec::new();
    let mut cur: Vec<char> = Vec::new();
    for k in 0..chars.len()
        invariant
            chars@ == value@,
            split_slash(value@.take(k as int)) == segs@.map_values(|v: Vec<char>| v@).push(cur@),
    {
        let ch = chars[k];
        let ghost prev = value@.take(k as int);
        let ghost prev_segs = segs@.map_values(|v: Vec<char>| v@);
        let ghost prev_cur = cur@;
        if ch == '/' {
            let done = cur;
            segs.push(done);
            cur = Vec::new();
            proof {
                assert(segs@.map_values(|v: Vec<char>| v@) =~= prev_segs.push(done@));
            }
        } else {
            cur.push(ch);
        }
        proof {
            let next = value@.take(k + 1);
            assert(next.drop_last() =~= prev);
            assert(next.last() == ch);
            lemma_split_slash_nonempty(prev);
            let s = split_slash(prev);
            assert(s == prev_segs.push(prev_cur));
            if ch == '/' {
                assert(split_slash(next) =~= segs@.map_values(|v: Vec<char>| v@).push(cur@));
            } else {
                assert(s.last() == prev_cur);
                assert(split_slash(next) =~= segs@.map_values(|v: Vec<char>| v@).push(cur@));
            }
        }
    }
    assert(value@.take(chars.len() as int) =~= value@);
    segs.push(cur);
    proof {
        lemma_split_slash_nonempty(value@);
    }
    segs
}

/// Whether a recipe seed path is a safe workspace-relative `seeds/...` path.
pub fn is_safe_seed_path(value: &str) -> (r: bool)
    ensures
        r == safe_seed_path(value@),
{
    let segs = split_path(value);
    let ghost all = segs@.map_values(|v: Vec<char>| v@);
    assert(all == split_slash(value@));
    let seeds: Vec<char> = vec!['s', 'e', 'e', 'd', 's'];
    let one_dot: Vec<char> = vec!['.'];
    let two_dots: Vec<char> = vec!['.', '.'];
    assert(seeds@ =~= seeds_text());
    assert(one_dot@ =~= dot());
    assert(two_dots@ =~= dot_dot());
    assert(all[0] == segs@[0]@);
    if !seq_eq_chars(&segs[0], &seeds) {
        return false;
    }
    let mut named = false;
    for i in 1..segs.len()
        invariant
            all == segs@.map_values(|v: Vec<char>| v@),
            all == split_slash(value@),
            all.len() == segs@.len(),
            one_dot@ == dot(),
            two_dots@ == dot_dot(),
            1 <= i <= all.len(),
            all[0] == seeds_text(),
            named == exists|j: int| 1 <= j < i && (#[trigger] all[j]).len() > 0 && all[j] != dot(),
            forall|j: int| 1 <= j < i ==> #[trigger] all[j] != dot_dot(),
    {
        assert(all[i as int] == segs@[i as int]@);
        if seq_eq_chars(&segs[i], &two_dots) {
            assert(split_slash(value@)[i as int] == dot_dot());
            return false;
        }
        if segs[i].len() > 0 && !seq_eq_chars(&segs[i], &one_dot) {
            named = true;
        }
    }
    named
}

// ---------------------------------------------------------------------------
// Seed records

/// Whether a label names a seed record.
pub open spec fn has_seed(seeds: Seq<(SeedLabel, SeedRecord)>, label: Seq<char>) -> bool {
    exists|i: int| 0 <= i < seeds.len() && (#[trigger] seeds[i]).0@ == label
}

/// Findings for one seed record.
pub open spec fn seed_record_diags(label: Seq<char>, seed: SeedRecord) -> Seq<DiagView> {
    token_diags("seed label"@, label) + token_diags("seed fingerprint"@, seed.fingerprint@)
        + diag_if(
        !safe_seed_path(seed.path@),
        hard("seed "@ + label + " has unsafe path: "@ + seed.path@),
    )
}

/// Findings for seed records, record by record.
pub open spec fn seed_records_diags(seeds: Seq<(SeedLabel, SeedRecord)>) -> Seq<DiagView>
    decreases seeds.len(),
{
    if seeds.len() == 0 {
        seq![]
    } else {
        seed_records_diags(seeds.drop_last()) + seed_record_diags(
            seeds.last().0@,
            seeds.last().1,
        )
    }
}

fn validate_seed_records(seeds: &Vec<(SeedLabel, SeedRecord)>) -> (r: Vec<Diagnostic>)
    ensures
        diags_view(r@) == seed_records_diags(by_key(seeds@)),
{
    let order = seed_order(seeds);
    let ghost sorted = by_key(seeds@);
    let mut diagnostics: Vec<Diagnostic> = Vec::new();
    for i in 0..order.len()
        invariant
            sorted == by_key(seeds@),
            order@.len() == sorted.len(),
            forall|t: int| 0 <= t < order@.len() ==> #[trigger] order@[t] < seeds@.len(),
            forall|t: int| 0 <= t < order@.len() ==> seeds@[#[trigger] order@[t] as int] == sorted[t],
            diags_view(diagnostics@) == seed_records_diags(sorted.take(i as int)),
    {
        let k = order[i];
        assert(seeds@[k as int] == sorted[i as int]);
        let label = &seeds[k].0;
        let seed = &seeds[k].1;
        let ghost before = diags_view(diagnostics@);
        extend_diags(&mut diagnostics, validate_token("seed label", label.as_str()));
        extend_diags(
            &mut diagnostics,
            validate_token("seed fingerprint", seed.fingerprint.as_str()),
        );
        if !is_safe_seed_path(seed.path.as_str()) {
            let mut m = String::new();
            m.append("seed ");
            m.append(label.as_str());
            m.append(" has unsafe path: ");
            m.append(seed.path.as_str());
            let ghost b2 = diags_view(diagnostics@);
            diagnostics.push(Diagnostic::hard(m));
            assert(diags_view(diagnostics@) =~= b2.push(
                hard("seed "@ + label@ + " has unsafe path: "@ + seed.path@),
            ));
        }
        proof {
            assert(sorted.take(i + 1).drop_last() =~= sorted.take(i as int));
            assert(diags_view(diagnostics@) =~= before + seed_record_diags(label@, *seed));
        }
    }
    assert(sorted.take(sorted.len() as int) =~= sorted);
    diagnostics
}


// ---------------------------------------------------------------------------
// Credential versions

/// How many versions have status `st`.
pub open spec fn count_status(vs: Seq<CredentialVersion>, st: VersionStatus) -> nat
    decreases vs.len(),
{
    if vs.len() == 0 {
        0
    } else {
        count_status(vs.drop_last(), st) + (if vs.last().status == st {
            1nat
        } else {
            0nat
        })
    }
}

/// The greatest number among versions that are not pending, or 0.
pub open spec fn max_non_pending(vs: Seq<CredentialVersion>) -> nat
    decreases vs.len(),
{
    if vs.len() == 0 {
        0
    } else {
        let m = max_non_pending(vs.drop_last());
        if vs.last().status != VersionStatus::Pending && vs.last().number > m {
            vs.last().number as nat
        } else {
            m
        }
    }
}

/// The public salts of some versions, in order.
pub open spec fn salt_views(vs: Seq<CredentialVersion>) -> Seq<Seq<char>> {
    vs.map_values(|v: CredentialVersion| v.public_salt@)
}

/// The 16 salt bytes of a public salt, or nothing when it is padded, not base64url,
/// or not 16 bytes long.
pub open spec fn public_salt_bytes(salt: Seq<char>) -> Option<Seq<u8>> {
    if salt.contains('=') {
        None
    } else {
        match base64url_decode(salt) {
            Some(b) => if b.len() == 16 {
                Some(b)
            } else {
                None
            },
            None => None,
        }
    }
}

/// `credential {uid} version {n}`.
pub open spec fn msg_cv(uid: Seq<char>, n: u32) -> Seq<char> {
    "credential "@ + uid + " version "@ + decimal(n as nat)
}

/// Findings for one timestamp field.
pub open spec fn timestamp_diag(uid: Seq<char>, n: u32, name: Seq<char>, value: Option<String>) -> Seq<DiagView> {
    diag_if(
        value is Some && rfc3339_unix_nanos(value->0@) is None,
        hard(msg_cv(uid, n) + " has invalid RFC3339 timestamp "@ + name),
    )
}

/// Findings for the lifecycle timestamps of a version.
pub open spec fn timestamp_diags(uid: Seq<char>, v: CredentialVersion) -> Seq<DiagView> {
    timestamp_diag(uid, v.number, "created_at"@, v.created_at) + timestamp_diag(
        uid,
        v.number,
        "confirmed_at"@,
        v.confirmed_at,
    ) + timestamp_diag(uid, v.number, "failed_at"@, v.failed_at) + timestamp_diag(
        uid,
        v.number,
        "retired_at"@,
        v.retired_at,
    ) + timestamp_diag(uid, v.number, "revoked_at"@, v.revoked_at)
}

/// Findings for one version, given the salts seen before it and the greatest
/// non-pending version number of its record.
pub open spec fn version_diags_at(
    uid: Seq<char>,
    seeds: Seq<(SeedLabel, SeedRecord)>,
    seen: Seq<Seq<char>>,
    max_np: nat,
    v: CredentialVersion,
) -> Seq<DiagView> {
    diag_if(
        !has_seed(seeds, v.seed@),
        hard(msg_cv(uid, v.number) + " references unknown seed: "@ + v.seed@),
    ) + diag_if(
        v.scheme@ != SCHEME_V1@,
        hard(msg_cv(uid, v.number) + " uses unsupported scheme: "@ + v.scheme@),
    ) + diag_if(
        seen.contains(v.public_salt@),
        hard("duplicate public salt globally in recipes.yaml: "@ + v.public_salt@),
    ) + diag_if(
        public_salt_bytes(v.public_salt@) is None,
        hard(msg_cv(uid, v.number) + " has invalid public salt"@),
    ) + diag_if(
        v.status == VersionStatus::Pending && v.number <= max_np,
        hard(
            "credential "@ + uid + " pending version "@ + decimal(v.number as nat)
                + " is not greater than previous versions"@,
        ),
    ) + v.profile_snapshot.profile_diags() + timestamp_diags(uid, v)
}

/// Findings for versions in order; each one sees the salts of `seen` and of the
/// versions before it.
pub open spec fn versions_diags(
    uid: Seq<char>,
    seeds: Seq<(SeedLabel, SeedRecord)>,
    seen: Seq<Seq<char>>,
    max_np: nat,
    vs: Seq<CredentialVersion>,
) -> Seq<DiagView>
    decreases vs.len(),
{
    if vs.len() == 0 {
        seq![]
    } else {
        versions_diags(uid, seeds, seen, max_np, vs.drop_last()) + version_diags_at(
            uid,
            seeds,
            seen + salt_views(vs.drop_last()),
            max_np,
            vs.last(),
        )
    }
}

/// Findings for the versions of a record: lifecycle counts, then each version.
pub open spec fn record_versions_diags(
    record: CredentialRecord,
    seeds: Seq<(SeedLabel, SeedRecord)>,
    seen: Seq<Seq<char>>,
) -> Seq<DiagView> {
    let vs = record.versions@;
    let uid = record.uid@;
    let active = count_status(vs, VersionStatus::Active);
    let pending = count_status(vs, VersionStatus::Pending);
    diag_if(active > 1, hard("credential "@ + uid + " has more than one active version"@))
        + diag_if(pending > 1, hard("credential "@ + uid + " has more than one pending version"@))
        + diag_if(
        active == 0 && pending != 1,
        hard(
            "credential "@ + uid
                + " must have one active version or exactly one pending version"@,
        ),
    ) + versions_diags(uid, seeds, seen, max_non_pending(vs), vs)
}

fn push_hard(out: &mut Vec<Diagnostic>, message: String)
    ensures
        diags_view(final(out)@) == diags_view(old(out)@).push(hard(message@)),
{
    let ghost before = diags_view(out@);
    out.push(Diagnostic::hard(message));
    assert(diags_view(out@) =~= before.push(hard(message@)));
}

fn cv_message(uid: &str, n: u32, tail: &str) -> (r: String)
    ensures
        r@ == msg_cv(uid@, n) + tail@,
{
    let mut m = String::new();
    m.append("credential ");
    m.append(uid);
    m.append(" version ");
    push_decimal(&mut m, n as u64);
    m.append(tail);
    m
}

fn has_seed_exec(seeds: &Vec<(SeedLabel, SeedRecord)>, label: &SeedLabel) -> (r: bool)
    ensures
        r == has_seed(seeds@, label@),
{
    for i in 0..seeds.len()
        invariant
            forall|j: int| 0 <= j < i ==> (#[trigger] seeds@[j]).0@ != label@,
    {
        if seeds[i].0.0 == label.0 {
            return true;
        }
    }
    false
}

fn contains_string(v: &Vec<String>, s: &String) -> (r: bool)
    ensures
        r == v@.map_values(|x: String| x@).contains(s@),
{
    for i in 0..v.len()
        invariant
            forall|j: int| 0 <= j < i ==> (#[trigger] v@[j])@ != s@,
    {
        if v[i] == *s {
            assert(v@.map_values(|x: String| x@)[i as int] == s@);
            return true;
        }
    }
    false
}


/// Appends a copy of `s`.
fn push_clone(v: &mut Vec<String>, s: &String)
    ensures
        final(v)@.map_values(|x: String| x@) == old(v)@.map_values(|x: String| x@).push(s@),
{
    let ghost before = v@.map_values(|x: String| x@);
    v.push(s.clone());
    assert(v@.map_values(|x: String| x@) =~= before.push(s@));
}

fn decode_public_salt(salt: &str) -> (r: Option<Vec<u8>>)
    ensures
        r matches Some(b) ==> public_salt_bytes(salt@) == Some(b@),
        r is None ==> public_salt_bytes(salt@) is None,
{
    let chars = crate::text::chars_of(salt);
    if crate::text::contains_char(&chars, '=') {
        return None;
    }
    match b64url_decode(salt) {
        Some(b) => if b.len() == 16 {
            Some(b)
        } else {
            None
        },
        None => None,
    }
}

fn timestamp_check(uid: &str, n: u32, name: &str, value: &Option<String>) -> (r: Vec<Diagnostic>)
    ensures
        diags_view(r@) == timestamp_diag(uid@, n, name@, *value),
{
    let mut out: Vec<Diagnostic> = Vec::new();
    if let Some(v) = value {
        if rfc3339_nanos(v.as_str()).is_none() {
            let mut m = cv_message(uid, n, " has invalid RFC3339 timestamp ");
            m.append(name);
            push_hard(&mut out, m);
        }
    }
    assert(diags_view(out@) =~= timestamp_diag(uid@, n, name@, *value));
    out
}

fn validate_timestamps(uid: &str, version: &CredentialVersion) -> (r: Vec<Diagnostic>)
    ensures
        diags_view(r@) == timestamp_diags(uid@, *version),
{
    let n = version.number;
    let mut out = timestamp_check(uid, n, "created_at", &version.created_at);
    extend_diags(&mut out, timestamp_check(uid, n, "confirmed_at", &version.confirmed_at));
    extend_diags(&mut out, timestamp_check(uid, n, "failed_at", &version.failed_at));
    extend_diags(&mut out, timestamp_check(uid, n, "retired_at", &version.retired_at));
    extend_diags(&mut out, timestamp_check(uid, n, "revoked_at", &version.revoked_at));
    out
}

/// Findings for one version; records its salt in `public_salts`.
fn validate_version(
    uid: &str,
    seeds: &Vec<(SeedLabel, SeedRecord)>,
    public_salts: &mut Vec<String>,
    max_np: u32,
    version: &CredentialVersion,
) -> (r: Vec<Diagnostic>)
    ensures
        diags_view(r@) == version_diags_at(
            uid@,
            seeds@,
            old(public_salts)@.map_values(|x: String| x@),
            max_np as nat,
            *version,
        ),
        final(public_salts)@.map_values(|x: String| x@) == old(public_salts)@.map_values(
            |x: String| x@,
        ).push(version.public_salt@),
{
    let ghost seen = public_salts@.map_values(|x: String| x@);
    let mut d: Vec<Diagnostic> = Vec::new();
    let n = version.number;
    if !has_seed_exec(seeds, &version.seed) {
        let mut m = cv_message(uid, n, " references unknown seed: ");
        m.append(version.seed.as_str());
        push_hard(&mut d, m);
    }
    let ghost uidv = uid@;
    let ghost v = *version;
    assert(diags_view(d@) =~= diag_if(
        !has_seed(seeds@, v.seed@),
        hard(msg_cv(uidv, v.number) + " references unknown seed: "@ + v.seed@),
    ));
    let scheme_v1 = SCHEME_V1.to_owned();
    if version.scheme.0 != scheme_v1 {
        let mut m = cv_message(uid, n, " uses unsupported scheme: ");
        m.append(version.scheme.as_str());
        push_hard(&mut d, m);
    }
    let ghost d2 = diags_view(d@);
    assert(d2 =~= diag_if(
        !has_seed(seeds@, v.seed@),
        hard(msg_cv(uidv, v.number) + " references unknown seed: "@ + v.seed@),
    ) + diag_if(
        v.scheme@ != SCHEME_V1@,
        hard(msg_cv(uidv, v.number) + " uses unsupported scheme: "@ + v.scheme@),
    ));
    if contains_string(public_salts, &version.public_salt.0) {
        let mut m = String::new();
        m.append("duplicate public salt globally in recipes.yaml: ");
        m.append(version.public_salt.as_str());
        push_hard(&mut d, m);
    }
    public_salts.push(version.public_salt.0.clone());
    proof {
        assert(public_salts@.map_values(|x: String| x@) =~= seen.push(version.public_salt@));
    }
    let ghost d3 = diags_view(d@);
    assert(d3 =~= d2 + diag_if(
        seen.contains(v.public_salt@),
        hard("duplicate public salt globally in recipes.yaml: "@ + v.public_salt@),
    ));
    if decode_public_salt(version.public_salt.as_str()).is_none() {
        let m = cv_message(uid, n, " has invalid public salt");
        push_hard(&mut d, m);
    }
    let ghost d4 = diags_view(d@);
    assert(d4 =~= d3 + diag_if(
        public_salt_bytes(v.public_salt@) is None,
        hard(msg_cv(uidv, v.number) + " has invalid public salt"@),
    ));
    if version.status == VersionStatus::Pending && n <= max_np {
        let mut m = String::new();
        m.append("credential ");
        m.append(uid);
        m.append(" pending version ");
        push_decimal(&mut m, n as u64);
        m.append(" is not greater than previous versions");
        push_hard(&mut d, m);
    }
    let ghost d5 = diags_view(d@);
    assert(d5 =~= d4 + diag_if(
        v.status == VersionStatus::Pending && v.number <= max_np,
        hard(
            "credential "@ + uidv + " pending version "@ + decimal(v.number as nat)
                + " is not greater than previous versions"@,
        ),
    ));
    extend_diags(&mut d, version.profile_snapshot.validate_profile());
    extend_diags(&mut d, validate_timestamps(uid, version));
    d
}

/// Findings for the versions of one record. `public_salts` holds the salts seen
/// so far in the file; the salts of this record's versions are added to it.
fn validate_versions(
    record: &CredentialRecord,
    seeds: &Vec<(SeedLabel, SeedRecord)>,
    public_salts: &mut Vec<String>,
) -> (r: Vec<Diagnostic>)
    ensures
        diags_view(r@) == record_versions_diags(
            *record,
            seeds@,
            old(public_salts)@.map_values(|x: String| x@),
        ),
        final(public_salts)@.map_values(|x: String| x@) == old(public_salts)@.map_values(
            |x: String| x@,
        ) + salt_views(record.versions@),
{
    let vs = &record.versions;
    let ghost seen0 = public_salts@.map_values(|x: String| x@);
    let mut active_count: usize = 0;
    let mut pending_count: usize = 0;
    let mut max_np: u32 = 0;
    for i in 0..vs.len()
        invariant
            active_count == count_status(vs@.take(i as int), VersionStatus::Active),
            pending_count == count_status(vs@.take(i as int), VersionStatus::Pending),
            max_np == max_non_pending(vs@.take(i as int)),
            active_count <= i,
            pending_count <= i,
    {
        proof {
            assert(vs@.take(i + 1).drop_last() =~= vs@.take(i as int));
        }
        if vs[i].status == VersionStatus::Active {
            active_count += 1;
        }
        if vs[i].status == VersionStatus::Pending {
            pending_count += 1;
        }
        if vs[i].status != VersionStatus::Pending && vs[i].number > max_np {
            max_np = vs[i].number;
        }
    }
    assert(vs@.take(vs.len() as int) =~= vs@);
    let uid = record.uid.as_str();
    let mut diagnostics: Vec<Diagnostic> = Vec::new();
    if active_count > 1 {
        let m = crate::text::concat3("credential ", uid, " has more than one active version");
        push_hard(&mut diagnostics, m);
    }
    if pending_count > 1 {
        let m = crate::text::concat3("credential ", uid, " has more than one pending version");
        push_hard(&mut diagnostics, m);
    }
    if active_count == 0 && pending_count != 1 {
        let m = crate::text::concat3(
            "credential ",
            uid,
            " must have one active version or exactly one pending version",
        );
        push_hard(&mut diagnostics, m);
    }
    let ghost head = diags_view(diagnostics@);
    for i in 0..vs.len()
        invariant
            diags_view(diagnostics@) == head + versions_diags(
                uid@,
                seeds@,
                seen0,
                max_np as nat,
                vs@.take(i as int),
            ),
            public_salts@.map_values(|x: String| x@) == seen0 + salt_views(vs@.take(i as int)),
    {
        let ghost before = diags_view(diagnostics@);
        let ghost salts_before = public_salts@.map_values(|x: String| x@);
        let d = validate_version(uid, seeds, public_salts, max_np, &vs[i]);
        extend_diags(&mut diagnostics, d);
        proof {
            let pre = vs@.take(i as int);
            let next = vs@.take(i + 1);
            assert(next.drop_last() =~= pre);
            assert(next.last() == vs@[i as int]);
            assert(salt_views(next) =~= salt_views(pre).push(vs@[i as int].public_salt@));
            assert(public_salts@.map_values(|x: String| x@) =~= seen0 + salt_views(next));
            assert(diags_view(diagnostics@) =~= before + version_diags_at(
                uid@,
                seeds@,
                seen0 + salt_views(pre),
                max_np as nat,
                vs@[i as int],
            ));
        }
    }
    diagnostics
}


// ---------------------------------------------------------------------------
// Files

/// Findings common to any validated file.
pub trait Validate {
    /// The findings, in order.
    spec fn findings(&self) -> Seq<DiagView>;

    fn validate(&self) -> (r: Vec<Diagnostic>)
        ensures
            diags_view(r@) == self.findings(),
    ;

    /// The hard errors among the findings, in order.
    fn hard_errors(&self) -> (r: Vec<Diagnostic>)
        ensures
            diags_view(r@) == self.findings().filter(|d: DiagView| is_hard(d)),
    {
        hard_only(self.validate())
    }

    /// No finding is a hard error.
    fn is_valid(&self) -> (r: bool)
        ensures
            r == (self.findings().filter(|d: DiagView| is_hard(d)).len() == 0),
    {
        self.hard_errors().len() == 0
    }
}

/// The hard errors of a list of diagnostics, in order.
pub fn hard_only(d: Vec<Diagnostic>) -> (r: Vec<Diagnostic>)
    ensures
        diags_view(r@) == diags_view(d@).filter(|x: DiagView| is_hard(x)),
{
    let ghost all = diags_view(d@);
    let mut out: Vec<Diagnostic> = Vec::new();
    for i in 0..d.len()
        invariant
            all == diags_view(d@),
            diags_view(out@) == all.take(i as int).filter(|x: DiagView| is_hard(x)),
    {
        proof {
            reveal_with_fuel(Seq::filter, 1);
            assert(all.take(i + 1).drop_last() =~= all.take(i as int));
        }
        let ghost before = diags_view(out@);
        if d[i].severity == Severity::HardError {
            out.push(d[i].clone());
            assert(diags_view(out@) =~= before.push(all[i as int]));
        }
    }
    assert(all.take(d.len() as int) =~= all);
    out
}

/// The UIDs of some records, in order.
pub open spec fn uid_views(rs: Seq<CredentialRecord>) -> Seq<Seq<char>> {
    rs.map_values(|r: CredentialRecord| r.uid@)
}

/// The aliases of some records, in order.
pub open spec fn alias_views(rs: Seq<CredentialRecord>) -> Seq<Seq<char>> {
    rs.map_values(|r: CredentialRecord| r.alias@)
}

/// All public salts of some records, record by record and version by version.
pub open spec fn records_salts(rs: Seq<CredentialRecord>) -> Seq<Seq<char>>
    decreases rs.len(),
{
    if rs.len() == 0 {
        seq![]
    } else {
        records_salts(rs.drop_last()) + salt_views(rs.last().versions@)
    }
}

/// Findings for one credential record, given the UIDs, aliases and public salts
/// of the records before it.
pub open spec fn record_diags_with(
    uids: Seq<Seq<char>>,
    aliases: Seq<Seq<char>>,
    salts: Seq<Seq<char>>,
    r: CredentialRecord,
    seeds: Seq<(SeedLabel, SeedRecord)>,
) -> Seq<DiagView> {
    token_diags("credential alias"@, r.alias@) + token_diags("credential UID"@, r.uid@)
        + diag_if(uids.contains(r.uid@), hard("duplicate credential UID: "@ + r.uid@))
        + diag_if(aliases.contains(r.alias@), hard("duplicate credential alias: "@ + r.alias@))
        + record_versions_diags(r, seeds, salts)
}

/// Findings for one credential record, given the records before it.
pub open spec fn record_diags_at(
    prev: Seq<CredentialRecord>,
    r: CredentialRecord,
    seeds: Seq<(SeedLabel, SeedRecord)>,
) -> Seq<DiagView> {
    record_diags_with(uid_views(prev), alias_views(prev), records_salts(prev), r, seeds)
}

fn validate_record(
    record: &CredentialRecord,
    seeds: &Vec<(SeedLabel, SeedRecord)>,
    uids: &mut Vec<String>,
    aliases: &mut Vec<String>,
    public_salts: &mut Vec<String>,
) -> (r: Vec<Diagnostic>)
    ensures
        diags_view(r@) == record_diags_with(
            old(uids)@.map_values(|x: String| x@),
            old(aliases)@.map_values(|x: String| x@),
            old(public_salts)@.map_values(|x: String| x@),
            *record,
            seeds@,
        ),
        final(uids)@.map_values(|x: String| x@) == old(uids)@.map_values(|x: String| x@).push(
            record.uid@,
        ),
        final(aliases)@.map_values(|x: String| x@) == old(aliases)@.map_values(
            |x: String| x@,
        ).push(record.alias@),
        final(public_salts)@.map_values(|x: String| x@) == old(public_salts)@.map_values(
            |x: String| x@,
        ) + salt_views(record.versions@),
{
    let mut diagnostics = validate_token("credential alias", record.alias.as_str());
    extend_diags(&mut diagnostics, validate_token("credential UID", record.uid.as_str()));
    if contains_string(uids, &record.uid.0) {
        let m = crate::text::concat2("duplicate credential UID: ", record.uid.as_str());
        push_hard(&mut diagnostics, m);
    }
    push_clone(uids, &record.uid.0);
    if contains_string(aliases, &record.alias.0) {
        let m = crate::text::concat2("duplicate credential alias: ", record.alias.as_str());
        push_hard(&mut diagnostics, m);
    }
    push_clone(aliases, &record.alias.0);
    extend_diags(&mut diagnostics, validate_versions(record, seeds, public_salts));
    diagnostics
}

/// Findings for credential records, record by record.
pub open spec fn records_diags(rs: Seq<CredentialRecord>, seeds: Seq<(SeedLabel, SeedRecord)>) -> Seq<
    DiagView,
>
    decreases rs.len(),
{
    if rs.len() == 0 {
        seq![]
    } else {
        records_diags(rs.drop_last(), seeds) + record_diags_at(rs.drop_last(), rs.last(), seeds)
    }
}

/// Findings for `recipes.yaml`: format, seed records, then credentials.
pub open spec fn recipes_diags(f: RecipesFile) -> Seq<DiagView> {
    diag_if(f.format@ != RECIPES_FORMAT_V1@, hard("unsupported recipes format: "@ + f.format@))
        + seed_records_diags(by_key(f.seeds@)) + records_diags(f.credentials@, f.seeds@)
}

impl Validate for RecipesFile {
    open spec fn findings(&self) -> Seq<DiagView> {
        recipes_diags(*self)
    }

    fn validate(&self) -> (r: Vec<Diagnostic>) {
        let mut diagnostics: Vec<Diagnostic> = Vec::new();
        if self.format != RECIPES_FORMAT_V1.to_owned() {
            let m = crate::text::concat2("unsupported recipes format: ", self.format.as_str());
            push_hard(&mut diagnostics, m);
        }
        extend_diags(&mut diagnostics, validate_seed_records(&self.seeds));
        let ghost head = diags_view(diagnostics@);
        let rs = &self.credentials;
        let mut uids: Vec<String> = Vec::new();
        let mut aliases: Vec<String> = Vec::new();
        let mut public_salts: Vec<String> = Vec::new();
        for i in 0..rs.len()
            invariant
                diags_view(diagnostics@) == head + records_diags(rs@.take(i as int), self.seeds@),
                uids@.map_values(|x: String| x@) == uid_views(rs@.take(i as int)),
                aliases@.map_values(|x: String| x@) == alias_views(rs@.take(i as int)),
                public_salts@.map_values(|x: String| x@) == records_salts(rs@.take(i as int)),
        {
            let record = &rs[i];
            let ghost before = diags_view(diagnostics@);
            let ghost pre = rs@.take(i as int);
            let d = validate_record(record, &self.seeds, &mut uids, &mut aliases, &mut public_salts);
            extend_diags(&mut diagnostics, d);
            proof {
                let next = rs@.take(i + 1);
                assert(next.drop_last() =~= pre);
                assert(next.last() == *record);
                assert(uid_views(next) =~= uid_views(pre).push(record.uid@));
                assert(alias_views(next) =~= alias_views(pre).push(record.alias@));
            }
        }
        assert(rs@.take(rs.len() as int) =~= rs@);
        diagnostics
    }
}

/// Findings for directory entries, entry by entry.
pub open spec fn entries_diags(es: Seq<(CredentialUid, crate::model::DirectoryEntry)>) -> Seq<DiagView>
    decreases es.len(),
{
    if es.len() == 0 {
        seq![]
    } else {
        let prev = es.drop_last();
        let alias = es.last().1.alias@;
        entries_diags(prev) + token_diags("directory alias"@, alias) + diag_if(
            prev.map_values(|e: (CredentialUid, crate::model::DirectoryEntry)| e.1.alias@).contains(alias),
            hard("duplicate directory alias: "@ + alias),
        )
    }
}

/// Findings for `directory.yaml`: format, then entries in UID order.
pub open spec fn directory_diags(d: DirectoryFile) -> Seq<DiagView> {
    diag_if(d.format@ != DIRECTORY_FORMAT_V1@, hard("unsupported directory format: "@ + d.format@))
        + entries_diags(by_key(d.entries@))
}

impl Validate for DirectoryFile {
    open spec fn findings(&self) -> Seq<DiagView> {
        directory_diags(*self)
    }

    fn validate(&self) -> (r: Vec<Diagnostic>) {
        let mut diagnostics: Vec<Diagnostic> = Vec::new();
        if self.format != DIRECTORY_FORMAT_V1.to_owned() {
            let m = crate::text::concat2("unsupported directory format: ", self.format.as_str());
            push_hard(&mut diagnostics, m);
        }
        let ghost head = diags_view(diagnostics@);
        let es = &self.entries;
        let order = entry_order(es);
        let ghost sorted = by_key(es@);
        let mut aliases: Vec<String> = Vec::new();
        for i in 0..order.len()
            invariant
                sorted == by_key(es@),
                order@.len() == sorted.len(),
                forall|t: int| 0 <= t < order@.len() ==> #[trigger] order@[t] < es@.len(),
                forall|t: int| 0 <= t < order@.len() ==> es@[#[trigger] order@[t] as int] == sorted[t],
                diags_view(diagnostics@) == head + entries_diags(sorted.take(i as int)),
                aliases@.map_values(|x: String| x@) == sorted.take(i as int).map_values(
                    |e: (CredentialUid, crate::model::DirectoryEntry)| e.1.alias@,
                ),
        {
            let k = order[i];
            assert(es@[k as int] == sorted[i as int]);
            let entry = &es[k].1;
            let ghost before = diags_view(diagnostics@);
            let ghost pre = sorted.take(i as int);
            extend_diags(&mut diagnostics, validate_token("directory alias", entry.alias.as_str()));
            if contains_string(&aliases, &entry.alias.0) {
                let m = crate::text::concat2("duplicate directory alias: ", entry.alias.as_str());
                push_hard(&mut diagnostics, m);
            }
            push_clone(&mut aliases, &entry.alias.0);
            proof {
                let next = sorted.take(i + 1);
                assert(next.drop_last() =~= pre);
                assert(next.last() == sorted[i as int]);
                assert(next.map_values(
                    |e: (CredentialUid, crate::model::DirectoryEntry)| e.1.alias@,
                ) =~= pre.map_values(
                    |e: (CredentialUid, crate::model::DirectoryEntry)| e.1.alias@,
                ).push(entry.alias@));
                assert(diags_view(diagnostics@) =~= head + entries_diags(next));
            }
        }
        assert(sorted.take(sorted.len() as int) =~= sorted);
        diagnostics
    }
}

/// Directory entries whose UID names no credential record, entry by entry.
pub open spec fn unknown_uid_diags(
    rs: Seq<CredentialRecord>,
    es: Seq<(CredentialUid, crate::model::DirectoryEntry)>,
) -> Seq<DiagView>
    decreases es.len(),
{
    if es.len() == 0 {
        seq![]
    } else {
        unknown_uid_diags(rs, es.drop_last()) + diag_if(
            !uid_views(rs).contains(es.last().0@),
            hard("directory entry references unknown credential UID: "@ + es.last().0@),
        )
    }
}

/// Findings for recipes together with an optional directory.
pub open spec fn workspace_diags(f: RecipesFile, d: Option<DirectoryFile>) -> Seq<DiagView> {
    recipes_diags(f) + match d {
        Some(d) => directory_diags(d) + unknown_uid_diags(f.credentials@, by_key(d.entries@)),
        None => seq![],
    }
}

impl RecipesFile {
    /// Findings for the recipes, then (with a directory) for the directory and for
    /// directory entries that name unknown credential UIDs.
    pub fn validate_with_directory(&self, directory: Option<&DirectoryFile>) -> (r: Vec<Diagnostic>)
        ensures
            diags_view(r@) == workspace_diags(
                *self,
                match directory {
                    Some(d) => Some(*d),
                    None => None,
                },
            ),
    {
        let mut diagnostics = self.validate();
        if let Some(directory) = directory {
            extend_diags(&mut diagnostics, directory.validate());
            let ghost head = diags_view(diagnostics@);
            let mut known: Vec<String> = Vec::new();
            for i in 0..self.credentials.len()
                invariant
                    known@.map_values(|x: String| x@) == uid_views(self.credentials@.take(i as int)),
            {
                push_clone(&mut known, &self.credentials[i].uid.0);
                assert(uid_views(self.credentials@.take(i + 1)) =~= uid_views(
                    self.credentials@.take(i as int),
                ).push(self.credentials@[i as int].uid@));
            }
            assert(self.credentials@.take(self.credentials.len() as int) =~= self.credentials@);
            let es = &directory.entries;
            let order = entry_order(es);
            let ghost sorted = by_key(es@);
            for i in 0..order.len()
                invariant
                    sorted == by_key(es@),
                    order@.len() == sorted.len(),
                    forall|t: int| 0 <= t < order@.len() ==> #[trigger] order@[t] < es@.len(),
                    forall|t: int| 0 <= t < order@.len() ==> es@[#[trigger] order@[t] as int] == sorted[t],
                    known@.map_values(|x: String| x@) == uid_views(self.credentials@),
                    diags_view(diagnostics@) == head + unknown_uid_diags(
                        self.credentials@,
                        sorted.take(i as int),
                    ),
            {
                let ghost before = diags_view(diagnostics@);
                let k = order[i];
                assert(es@[k as int] == sorted[i as int]);
                let uid = &es[k].0;
                if !contains_string(&known, &uid.0) {
                    let m = crate::text::concat2(
                        "directory entry references unknown credential UID: ",
                        uid.as_str(),
                    );
                    push_hard(&mut diagnostics, m);
                }
                proof {
                    let next = sorted.take(i + 1);
                    assert(next.drop_last() =~= sorted.take(i as int));
                    assert(next.last() == sorted[i as int]);
                }
            }
            assert(sorted.take(sorted.len() as int) =~= sorted);
        }
        diagnostics
    }
}

} // verus!
