//! Workspace upkeep: the doctor's advisory warnings, recipe-hash display, and the
//! paths that a backup archive may restore.
use vstd::prelude::*;
use crate::codec::{hex_digit, push_hex_digit};
use crate::crypto::{kdf_parameter_warnings, kdf_warnings, KdfParams};
use crate::model::{entry_order, CredentialRecord, CredentialVersion, DirectoryEntry, CredentialUid, DirectoryFile, VersionStatus};
use crate::primitives::{rfc3339_nanos, rfc3339_unix_nanos};
use crate::storage::Workspace;
use crate::text::{by_key, chars_of, decimal, push_decimal, same_text, string_from_chars};

verus! {

/// The warning that the doctor always gives.
pub const CLIPBOARD_WARNING: &'static str = "clipboard output is unavailable in this MVP build; --clip will not fall back to stdout";

/// Fourteen days in nanoseconds: a pending rotation older than this is reported.
pub const STALE_PENDING_NANOS: i128 = 1_209_600_000_000_000;

// ---------------------------------------------------------------------------
// Doctor warnings

/// A seed file's KDF warnings, each after its path.
pub open spec fn seed_kdf_lines(path: Seq<char>, kdf: KdfParams) -> Seq<Seq<char>> {
    kdf_warnings(kdf).map_values(|w: Seq<char>| path + ": "@ + w)
}

/// The KDF warnings of the seed files that could be read, file by file.
pub open spec fn kdf_lines(ss: Seq<(String, KdfParams)>) -> Seq<Seq<char>>
    decreases ss.len(),
{
    if ss.len() == 0 {
        seq![]
    } else {
        kdf_lines(ss.drop_last()) + seed_kdf_lines(ss.last().0@, ss.last().1)
    }
}

/// A pending version created (by a readable RFC 3339 time) more than fourteen days
/// before `now`, in nanoseconds since the Unix epoch.
pub open spec fn stale_pending(v: CredentialVersion, now: int) -> bool {
    &&& v.status == VersionStatus::Pending
    &&& v.created_at matches Some(t) && rfc3339_unix_nanos(t@) matches Some(c) && now - c
        > STALE_PENDING_NANOS
}

/// Warnings for the stale pending versions of one credential, in order.
pub open spec fn version_lines(alias: Seq<char>, vs: Seq<CredentialVersion>, now: int) -> Seq<Seq<char>>
    decreases vs.len(),
{
    if vs.len() == 0 {
        seq![]
    } else {
        version_lines(alias, vs.drop_last(), now) + if stale_pending(vs.last(), now) {
            seq!["pending rotation older than 14 days: "@ + alias + " version "@ + decimal(vs.last().number as nat)]
        } else {
            seq![]
        }
    }
}

/// Warnings for stale pending versions, credential by credential.
pub open spec fn pending_lines(rs: Seq<CredentialRecord>, now: int) -> Seq<Seq<char>>
    decreases rs.len(),
{
    if rs.len() == 0 {
        seq![]
    } else {
        pending_lines(rs.drop_last(), now) + version_lines(rs.last().alias@, rs.last().versions@, now)
    }
}

/// The service and username of an entry that has both.
pub open spec fn contact(e: DirectoryEntry) -> Option<(Seq<char>, Seq<char>)> {
    match (e.service, e.username) {
        (Some(s), Some(u)) => Some((s@, u@)),
        _ => None,
    }
}

/// The warning for directory entry `i`: its service and username repeat an earlier
/// entry's, or it has no username.
pub open spec fn entry_line(es: Seq<(CredentialUid, DirectoryEntry)>, i: int) -> Seq<Seq<char>> {
    let e = es[i].1;
    match contact(e) {
        Some((s, u)) => if exists|j: int| 0 <= j < i && #[trigger] contact(es[j].1) == Some((s, u)) {
            seq!["duplicate service+username metadata: "@ + s + " "@ + u]
        } else {
            seq![]
        },
        None => if e.username is None {
            seq!["directory entry missing username: "@ + e.alias@]
        } else {
            seq![]
        },
    }
}

/// The doctor's warning for a directory entry: an entry with a service and a
/// username is reported as duplicate metadata exactly when an earlier entry has
/// the same service and the same username (a shared service alone is no
/// duplicate); an entry without a username is reported as missing one; an entry
/// with a username but no service gets no warning.
pub proof fn law_duplicate_contact_needs_service_and_username(es: Seq<(CredentialUid, DirectoryEntry)>, i: int)
    requires
        0 <= i < es.len(),
    ensures
        ({
            let e = es[i].1;
            match (e.service, e.username) {
                (Some(s), Some(u)) => entry_line(es, i) == if exists|j: int|
                    0 <= j < i && (#[trigger] es[j].1).service is Some && es[j].1.service->0@ == s@
                        && es[j].1.username is Some && es[j].1.username->0@ == u@ {
                    seq!["duplicate service+username metadata: "@ + s@ + " "@ + u@]
                } else {
                    seq![]
                },
                (_, None) => entry_line(es, i) == seq!["directory entry missing username: "@ + e.alias@],
                (None, Some(_)) => entry_line(es, i) == Seq::<Seq<char>>::empty(),
            }
        }),
{
    let e = es[i].1;
    if let (Some(s), Some(u)) = (e.service, e.username) {
        let same = exists|j: int|
            0 <= j < i && (#[trigger] es[j].1).service is Some && es[j].1.service->0@ == s@
                && es[j].1.username is Some && es[j].1.username->0@ == u@;
        let via = exists|j: int| 0 <= j < i && #[trigger] contact(es[j].1) == Some((s@, u@));
        if same {
            let j = choose|j: int|
                0 <= j < i && (#[trigger] es[j].1).service is Some && es[j].1.service->0@ == s@
                    && es[j].1.username is Some && es[j].1.username->0@ == u@;
            assert(contact(es[j].1) == Some((s@, u@)));
        }
        if via {
            let j = choose|j: int| 0 <= j < i && #[trigger] contact(es[j].1) == Some((s@, u@));
            assert(es[j].1.service is Some && es[j].1.username is Some);
        }
    }
}

/// The warnings of the first `n` directory entries, in the order given (the doctor
/// gives them in UID order).
pub open spec fn entry_lines(es: Seq<(CredentialUid, DirectoryEntry)>, n: int) -> Seq<Seq<char>>
    decreases n,
{
    if n <= 0 {
        seq![]
    } else {
        entry_lines(es, n - 1) + entry_line(es, n - 1)
    }
}

/// Everything the doctor advises beyond validation: the clipboard note, weak KDF
/// parameters, stale pending rotations, and directory metadata gaps.
pub open spec fn doctor_lines(w: Workspace, seed_kdfs: Seq<(String, KdfParams)>, now: int) -> Seq<Seq<char>> {
    seq![CLIPBOARD_WARNING@] + kdf_lines(seed_kdfs) + pending_lines(w.recipes.credentials@, now)
        + match w.directory {
        Some(d) => entry_lines(by_key(d.entries@), d.entries@.len() as int),
        None => seq![],
    }
}

/// The texts of some strings.
pub open spec fn texts(v: Seq<String>) -> Seq<Seq<char>> {
    v.map_values(|s: String| s@)
}

fn push_text(out: &mut Vec<String>, s: String)
    ensures
        texts(final(out)@) == texts(old(out)@).push(s@),
{
    let ghost before = texts(out@);
    out.push(s);
    assert(texts(out@) =~= before.push(s@));
}

fn push_kdf_lines(out: &mut Vec<String>, path: &String, kdf: &KdfParams)
    ensures
        texts(final(out)@) == texts(old(out)@) + seed_kdf_lines(path@, *kdf),
{
    let ghost start = texts(out@);
    let ws = kdf_parameter_warnings(kdf);
    let ghost wv = ws@.map_values(|w: String| w@);
    for i in 0..ws.len()
        invariant
            wv == ws@.map_values(|w: String| w@),
            texts(out@) == start + wv.take(i as int).map_values(|w: Seq<char>| path@ + ": "@ + w),
    {
        let mut line = path.clone();
        line.append(": ");
        line.append(ws[i].as_str());
        push_text(out, line);
        assert(wv.take(i + 1).map_values(|w: Seq<char>| path@ + ": "@ + w) =~= wv.take(
            i as int,
        ).map_values(|w: Seq<char>| path@ + ": "@ + w).push(path@ + ": "@ + wv[i as int]));
    }
    assert(wv.take(ws.len() as int) =~= wv);
}

fn is_stale_pending(v: &CredentialVersion, now: i128) -> (r: bool)
    requires
        -100_000_000_000_000_000_000_000 <= now <= 100_000_000_000_000_000_000_000,
    ensures
        r == stale_pending(*v, now as int),
{
    if v.status != VersionStatus::Pending {
        return false;
    }
    match &v.created_at {
        None => false,
        Some(t) => match rfc3339_nanos(t.as_str()) {
            None => false,
            Some(c) => now - c > STALE_PENDING_NANOS,
        },
    }
}

fn push_pending_lines(out: &mut Vec<String>, record: &CredentialRecord, now: i128)
    requires
        -100_000_000_000_000_000_000_000 <= now <= 100_000_000_000_000_000_000_000,
    ensures
        texts(final(out)@) == texts(old(out)@) + version_lines(record.alias@, record.versions@, now as int),
{
    let ghost start = texts(out@);
    let vs = &record.versions;
    for i in 0..vs.len()
        invariant
            -100_000_000_000_000_000_000_000 <= now <= 100_000_000_000_000_000_000_000,
            texts(out@) == start + version_lines(record.alias@, vs@.take(i as int), now as int),
    {
        assert(vs@.take(i + 1).drop_last() =~= vs@.take(i as int));
        if is_stale_pending(&vs[i], now) {
            let mut line = String::new();
            line.append("pending rotation older than 14 days: ");
            line.append(record.alias.as_str());
            line.append(" version ");
            push_decimal(&mut line, vs[i].number as u64);
            push_text(out, line);
        }
        assert(texts(out@) =~= start + version_lines(record.alias@, vs@.take(i + 1), now as int));
    }
    assert(vs@.take(vs.len() as int) =~= vs@);
}

fn push_entry_line(
    out: &mut Vec<String>,
    es: &Vec<(CredentialUid, DirectoryEntry)>,
    order: &Vec<usize>,
    i: usize,
)
    requires
        i < order.len(),
        order@.len() == by_key(es@).len(),
        forall|t: int| 0 <= t < order@.len() ==> #[trigger] order@[t] < es@.len(),
        forall|t: int| 0 <= t < order@.len() ==> es@[#[trigger] order@[t] as int] == by_key(es@)[t],
    ensures
        texts(final(out)@) == texts(old(out)@) + entry_line(by_key(es@), i as int),
{
    let ghost start = texts(out@);
    let ghost sorted = by_key(es@);
    let e = &es[order[i]].1;
    assert(es@[order@[i as int] as int] == sorted[i as int]);
    match (&e.service, &e.username) {
        (Some(s), Some(u)) => {
            let mut seen = false;
            for j in 0..i
                invariant
                    i < order.len(),
                    sorted == by_key(es@),
                    order@.len() == sorted.len(),
                    forall|t: int| 0 <= t < order@.len() ==> #[trigger] order@[t] < es@.len(),
                    forall|t: int| 0 <= t < order@.len() ==> es@[#[trigger] order@[t] as int] == sorted[t],
                    e == sorted[i as int].1,
                    e.service == Some(*s),
                    e.username == Some(*u),
                    seen == exists|k: int| 0 <= k < j && #[trigger] contact(sorted[k].1) == Some((s@, u@)),
            {
                assert(es@[order@[j as int] as int] == sorted[j as int]);
                let f = &es[order[j]].1;
                let same = match (&f.service, &f.username) {
                    (Some(s2), Some(u2)) => same_text(s2.as_str(), s.as_str()) && same_text(
                        u2.as_str(),
                        u.as_str(),
                    ),
                    _ => false,
                };
                assert(same == (contact(sorted[j as int].1) == Some((s@, u@))));
                if same {
                    seen = true;
                }
            }
            if seen {
                let mut line = String::new();
                line.append("duplicate service+username metadata: ");
                line.append(s.as_str());
                line.append(" ");
                line.append(u.as_str());
                push_text(out, line);
            }
        },
        _ => {
            if e.username.is_none() {
                let line = crate::text::concat2("directory entry missing username: ", e.alias.as_str());
                push_text(out, line);
            }
        },
    }
    assert(texts(out@) =~= start + entry_line(sorted, i as int));
}

/// The doctor's warnings at the time `now_nanos`, given the KDF parameters of each
/// seed file that could be read, in the order of the seed labels.
pub fn doctor_warnings_at(workspace: &Workspace, seed_kdfs: &Vec<(String, KdfParams)>, now_nanos: i128) -> (r: Vec<String>)
    requires
        -100_000_000_000_000_000_000_000 <= now_nanos <= 100_000_000_000_000_000_000_000,
    ensures
        texts(r@) == doctor_lines(*workspace, seed_kdfs@, now_nanos as int),
{
    let mut out: Vec<String> = Vec::new();
    push_text(&mut out, CLIPBOARD_WARNING.to_owned());
    let ghost head = texts(out@);
    for i in 0..seed_kdfs.len()
        invariant
            texts(out@) == head + kdf_lines(seed_kdfs@.take(i as int)),
    {
        assert(seed_kdfs@.take(i + 1).drop_last() =~= seed_kdfs@.take(i as int));
        push_kdf_lines(&mut out, &seed_kdfs[i].0, &seed_kdfs[i].1);
        assert(texts(out@) =~= head + kdf_lines(seed_kdfs@.take(i + 1)));
    }
    assert(seed_kdfs@.take(seed_kdfs.len() as int) =~= seed_kdfs@);
    let ghost mid = texts(out@);
    let rs = &workspace.recipes.credentials;
    for i in 0..rs.len()
        invariant
            -100_000_000_000_000_000_000_000 <= now_nanos <= 100_000_000_000_000_000_000_000,
            texts(out@) == mid + pending_lines(rs@.take(i as int), now_nanos as int),
    {
        assert(rs@.take(i + 1).drop_last() =~= rs@.take(i as int));
        push_pending_lines(&mut out, &rs[i], now_nanos);
        assert(texts(out@) =~= mid + pending_lines(rs@.take(i + 1), now_nanos as int));
    }
    assert(rs@.take(rs.len() as int) =~= rs@);
    let ghost tail = texts(out@);
    if let Some(directory) = &workspace.directory {
        let es = &directory.entries;
        let order = entry_order(es);
        for i in 0..order.len()
            invariant
                order@.len() == by_key(es@).len(),
                forall|t: int| 0 <= t < order@.len() ==> #[trigger] order@[t] < es@.len(),
                forall|t: int| 0 <= t < order@.len() ==> es@[#[trigger] order@[t] as int] == by_key(es@)[t],
                texts(out@) == tail + entry_lines(by_key(es@), i as int),
        {
            push_entry_line(&mut out, es, &order, i);
        }
    }
    assert(texts(out@) =~= doctor_lines(*workspace, seed_kdfs@, now_nanos as int));
    out
}

/// The doctor's warnings now.
pub fn doctor_warnings(workspace: &Workspace, seed_kdfs: &Vec<(String, KdfParams)>) -> (r: Vec<String>)
    ensures
        exists|now: int| texts(r@) == doctor_lines(*workspace, seed_kdfs@, now),
{
    let now = crate::primitives::now_unix_nanos();
    doctor_warnings_at(workspace, seed_kdfs, now)
}

// ---------------------------------------------------------------------------
// Hexadecimal

/// Lower-case hexadecimal, two digits per byte.
pub open spec fn hex_text(bytes: Seq<u8>) -> Seq<char>
    decreases bytes.len(),
{
    if bytes.len() == 0 {
        seq![]
    } else {
        hex_text(bytes.drop_last()) + seq![
            hex_digit((bytes.last() / 16) as nat),
            hex_digit((bytes.last() % 16) as nat),
        ]
    }
}

/// Lower-case hexadecimal of some bytes.
pub fn hex(bytes: &[u8]) -> (r: String)
    ensures
        r@ == hex_text(bytes@),
{
    let mut out = String::new();
    for i in 0..bytes.len()
        invariant
            out@ == hex_text(bytes@.take(i as int)),
    {
        assert(bytes@.take(i + 1).drop_last() =~= bytes@.take(i as int));
        let b = bytes[i];
        push_hex_digit(&mut out, (b / 16) as u32);
        push_hex_digit(&mut out, (b % 16) as u32);
        assert(out@ =~= hex_text(bytes@.take(i + 1)));
    }
    assert(bytes@.take(bytes.len() as int) =~= bytes@);
    out
}

// ---------------------------------------------------------------------------
// Backup archive paths

/// The top directory of every path in a backup archive.
pub const BACKUP_ROOT: &'static str = "seedpass-backup-v1";

/// Why a backup archive path is refused.
#[derive(Debug, PartialEq, Eq)]
pub enum BackupPathError {
    Empty,
    Unexpected(String),
    Unsafe(String),
}

/// The text of a backup path refusal.
pub open spec fn backup_path_message(e: BackupPathError) -> Seq<char> {
    match e {
        BackupPathError::Empty => "empty backup path"@,
        BackupPathError::Unexpected(p) => "unexpected backup path: "@ + p@,
        BackupPathError::Unsafe(p) => "unsafe or unsupported backup path: "@ + p@,
    }
}

impl BackupPathError {
    /// The refusal's text.
    pub fn message(&self) -> (r: String)
        ensures
            r@ == backup_path_message(*self),
    {
        match self {
            BackupPathError::Empty => "empty backup path".to_owned(),
            BackupPathError::Unexpected(p) => crate::text::concat2("unexpected backup path: ", p.as_str()),
            BackupPathError::Unsafe(p) => crate::text::concat2(
                "unsafe or unsupported backup path: ",
                p.as_str(),
            ),
        }
    }
}

/// A path with its leading separators and `.` components removed.
pub open spec fn trim_front(s: Seq<char>) -> Seq<char>
    decreases s.len(),
{
    if s.len() > 0 && s[0] == '/' {
        trim_front(s.drop_first())
    } else if s =~= seq!['.'] {
        Seq::empty()
    } else if s.len() >= 2 && s[0] == '.' && s[1] == '/' {
        trim_front(s.skip(2))
    } else {
        s
    }
}

/// A path with its trailing separators and `.` components removed.
pub open spec fn trim_back(s: Seq<char>) -> Seq<char>
    decreases s.len(),
{
    if s.len() > 0 && s.last() == '/' {
        trim_back(s.drop_last())
    } else if s =~= seq!['.'] {
        Seq::empty()
    } else if s.len() >= 2 && s[s.len() - 2] == '/' && s.last() == '.' {
        trim_back(s.drop_last().drop_last())
    } else {
        s
    }
}

/// The path starts with the component `seedpass-backup-v1`.
pub open spec fn starts_at_backup_root(p: Seq<char>) -> bool {
    let n = BACKUP_ROOT@.len();
    &&& p.len() >= n
    &&& p.take(n as int) == BACKUP_ROOT@
    &&& (p.len() == n || p[n as int] == '/')
}

/// The rest of a path below `seedpass-backup-v1`, as a relative path.
pub open spec fn below_backup_root(p: Seq<char>) -> Seq<char> {
    let n = BACKUP_ROOT@.len();
    trim_back(trim_front(if p.len() > n { p.skip(n as int + 1) } else { Seq::empty() }))
}

/// Some `..` occurs in the text.
pub open spec fn has_dot_dot(t: Seq<char>) -> bool {
    exists|i: int| 0 <= i < t.len() - 1 && #[trigger] t[i] == '.' && t[i + 1] == '.'
}

/// The files a backup may restore: the three workspace files, and seed files
/// under `seeds/` with no `..` in their path.
pub open spec fn restorable(t: Seq<char>) -> bool {
    ||| t == "recipes.yaml"@
    ||| t == "directory.yaml"@
    ||| t == "profiles.yaml"@
    ||| (t.len() >= 6 && t.take(6) == seq!['s', 'e', 'e', 'd', 's', '/'] && !has_dot_dot(t))
}

/// The workspace-relative path that an archive entry restores to, or why it is
/// refused.
pub fn backup_relative_path(path: &str) -> (r: Result<String, BackupPathError>)
    ensures
        path@.len() == 0 ==> r == Err::<String, BackupPathError>(BackupPathError::Empty),
        path@.len() > 0 && !starts_at_backup_root(path@) ==> (r matches Err(
            BackupPathError::Unexpected(q),
        ) && q@ == path@),
        path@.len() > 0 && starts_at_backup_root(path@) && !restorable(below_backup_root(path@))
            ==> (r matches Err(BackupPathError::Unsafe(q)) && q@ == path@),
        path@.len() > 0 && starts_at_backup_root(path@) && restorable(below_backup_root(path@))
            ==> (r matches Ok(t) && t@ == below_backup_root(path@)),
{
    let p = chars_of(path);
    if p.len() == 0 {
        return Err(BackupPathError::Empty);
    }
    let root = chars_of(BACKUP_ROOT);
    let n = root.len();
    if p.len() < n {
        return Err(BackupPathError::Unexpected(path.to_owned()));
    }
    for i in 0..n
        invariant
            p@ == path@,
            root@ == BACKUP_ROOT@,
            n == root.len(),
            n <= p.len(),
            forall|j: int| 0 <= j < i ==> p@[j] == root@[j],
    {
        if p[i] != root[i] {
            return Err(BackupPathError::Unexpected(path.to_owned()));
        }
    }
    assert(p@.take(n as int) =~= root@);
    if p.len() > n && p[n] != '/' {
        return Err(BackupPathError::Unexpected(path.to_owned()));
    }
    let ghost rest = if p@.len() > n { p@.skip(n + 1) } else { Seq::<char>::empty() };
    // Trim leading separators and `.` components.
    let mut a: usize = if p.len() > n { n + 1 } else { p.len() };
    assert(p@.subrange(a as int, p@.len() as int) =~= rest);
    let len = p.len();
    loop
        invariant_except_break
            a <= len,
            trim_front(rest) == trim_front(p@.subrange(a as int, len as int)),
        invariant
            p@ == path@,
            len == p.len(),
        ensures
            a <= len,
            trim_front(rest) == p@.subrange(a as int, len as int),
        decreases len - a,
    {
        let ghost cur = p@.subrange(a as int, len as int);
        if a < len && p[a] == '/' {
            assert(cur.drop_first() =~= p@.subrange(a + 1, len as int));
            a = a + 1;
        } else if len - a == 1 && p[a] == '.' {
            assert(cur =~= seq!['.']);
            assert(p@.subrange(len as int, len as int) =~= Seq::<char>::empty());
            a = len;
            break;
        } else if len - a >= 2 && p[a] == '.' && p[a + 1] == '/' {
            assert(cur.skip(2) =~= p@.subrange(a + 2, len as int));
            a = a + 2;
        } else {
            assert(!(cur =~= seq!['.'])) by {
                if cur =~= seq!['.'] {
                    assert(cur[0] == p@[a as int]);
                }
            }
            break;
        }
    }
    let ghost front = trim_front(rest);
    // Trim trailing separators and `.` components.
    let mut b: usize = len;
    loop
        invariant_except_break
            a <= b <= len,
            trim_back(front) == trim_back(p@.subrange(a as int, b as int)),
        invariant
            p@ == path@,
            len == p.len(),
            a <= len,
            front == p@.subrange(a as int, len as int),
        ensures
            a <= b <= len,
            trim_back(front) == p@.subrange(a as int, b as int),
        decreases b - a,
    {
        let ghost cur = p@.subrange(a as int, b as int);
        if b > a && p[b - 1] == '/' {
            assert(cur.drop_last() =~= p@.subrange(a as int, b - 1));
            b = b - 1;
        } else if b - a == 1 && p[a] == '.' {
            assert(cur =~= seq!['.']);
            b = a;
            assert(p@.subrange(a as int, b as int) =~= Seq::<char>::empty());
            break;
        } else if b - a >= 2 && p[b - 2] == '/' && p[b - 1] == '.' {
            assert(cur.drop_last().drop_last() =~= p@.subrange(a as int, b - 2));
            b = b - 2;
        } else {
            assert(!(cur =~= seq!['.'])) by {
                if cur =~= seq!['.'] {
                    assert(cur[0] == p@[a as int]);
                }
            }
            break;
        }
    }
    let ghost t = trim_back(front);
    let mut tv: Vec<char> = Vec::new();
    for i in a..b
        invariant
            p@ == path@,
            a <= b <= p.len(),
            tv@ == p@.subrange(a as int, i as int),
    {
        tv.push(p[i]);
        assert(tv@ =~= p@.subrange(a as int, i + 1));
    }
    let text = string_from_chars(&tv);
    let allowed = same_text(text.as_str(), "recipes.yaml") || same_text(text.as_str(), "directory.yaml")
        || same_text(text.as_str(), "profiles.yaml") || (starts_with_seeds(&tv) && !has_dot_dot_exec(&tv));
    if !allowed {
        return Err(BackupPathError::Unsafe(path.to_owned()));
    }
    Ok(text)
}

/// Whether a restored workspace-relative path is a seed file, which is written
/// readable by its owner only.
pub fn restores_secret(relative: &str) -> (r: bool)
    ensures
        r == (relative@.len() >= 6 && relative@.take(6) == seq!['s', 'e', 'e', 'd', 's', '/']),
{
    let t = chars_of(relative);
    starts_with_seeds(&t)
}

fn starts_with_seeds(t: &Vec<char>) -> (r: bool)
    ensures
        r == (t@.len() >= 6 && t@.take(6) == seq!['s', 'e', 'e', 'd', 's', '/']),
{
    if t.len() < 6 {
        return false;
    }
    let r = t[0] == 's' && t[1] == 'e' && t[2] == 'e' && t[3] == 'd' && t[4] == 's' && t[5] == '/';
    if r {
        assert(t@.take(6) =~= seq!['s', 'e', 'e', 'd', 's', '/']);
    } else {
        assert(t@.take(6)[0] == t@[0] && t@.take(6)[5] == t@[5]);
        assert(t@.take(6)[1] == t@[1] && t@.take(6)[2] == t@[2]);
        assert(t@.take(6)[3] == t@[3] && t@.take(6)[4] == t@[4]);
    }
    r
}

fn has_dot_dot_exec(t: &Vec<char>) -> (r: bool)
    ensures
        r == has_dot_dot(t@),
{
    if t.len() < 2 {
        return false;
    }
    for i in 0..t.len() - 1
        invariant
            t.len() >= 2,
            forall|j: int| 0 <= j < i ==> !(#[trigger] t@[j] == '.' && t@[j + 1] == '.'),
    {
        if t[i] == '.' && t[i + 1] == '.' {
            return true;
        }
    }
    false
}

} // verus!
