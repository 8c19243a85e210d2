//! Workspace layout, strict-load preflight, and whole-workspace validation.
//!
//! Recipes and directory files are authoritative; the files themselves are read
//! and written by the caller, which hands this module the texts and what it found
//! on disk.
use vstd::prelude::*;
use crate::codec::{codec_message, CodecError};
use crate::model::{
    diags_view, hard, is_hard, is_warning, DiagView, Diagnostic, DirectoryFile, ProfilesFile,
    RecipesFile, Severity,
};
use crate::profile::diag_if;
use crate::text::{chars_of, octal, push_char, push_octal};
use crate::validate::{is_safe_seed_path, safe_seed_path, seq_eq_chars, split_path, split_slash, workspace_diags};
use crate::yaml::{reason_text, reject_duplicate_yaml_keys, yaml_issue};

verus! {

pub const CONFIG_FILE: &'static str = "seedpass.yaml";
pub const RECIPES_FILE: &'static str = "recipes.yaml";
pub const DIRECTORY_FILE: &'static str = "directory.yaml";
pub const PROFILES_FILE: &'static str = "profiles.yaml";
pub const SEEDS_DIR: &'static str = "seeds";
pub const HISTORY_DIR: &'static str = "history";
pub const EVENT_LOG_FILE: &'static str = "history/recipe-events.log";
pub const LOCK_FILE: &'static str = ".seedpass.lock";

/// Errors of workspace storage. Paths are texts; the causes of I/O and YAML
/// errors are their messages.
#[derive(Debug)]
pub enum StorageError {
    ConfigDirUnavailable,
    Io { path: String, message: String },
    Yaml { path: String, message: String },
    Codec { path: String, source: CodecError },
    AlreadyLocked(String),
    UnsafeSeedPath(String),
}

/// The text of a storage error.
pub open spec fn storage_message(e: StorageError) -> Seq<char> {
    match e {
        StorageError::ConfigDirUnavailable => "could not resolve platform config directory"@,
        StorageError::Io { path, message } => "I/O error at "@ + path@ + ": "@ + message@,
        StorageError::Yaml { path, message } => "YAML error in "@ + path@ + ": "@ + message@,
        StorageError::Codec { path, source } => "strict codec error in "@ + path@ + ": "@
            + codec_message(source),
        StorageError::AlreadyLocked(path) => "workspace is already locked: "@ + path@,
        StorageError::UnsafeSeedPath(path) => "unsafe seed path in recipes.yaml: "@ + path@,
    }
}

impl StorageError {
    /// The error's text.
    pub fn message(&self) -> (r: String)
        ensures
            r@ == storage_message(*self),
    {
        let mut out = String::new();
        match self {
            StorageError::ConfigDirUnavailable => {
                out.append("could not resolve platform config directory");
            },
            StorageError::Io { path, message } => {
                out.append("I/O error at ");
                out.append(path.as_str());
                out.append(": ");
                out.append(message.as_str());
            },
            StorageError::Yaml { path, message } => {
                out.append("YAML error in ");
                out.append(path.as_str());
                out.append(": ");
                out.append(message.as_str());
            },
            StorageError::Codec { path, source } => {
                out.append("strict codec error in ");
                out.append(path.as_str());
                out.append(": ");
                let m = source.message();
                out.append(m.as_str());
            },
            StorageError::AlreadyLocked(path) => {
                out.append("workspace is already locked: ");
                out.append(path.as_str());
            },
            StorageError::UnsafeSeedPath(path) => {
                out.append("unsafe seed path in recipes.yaml: ");
                out.append(path.as_str());
            },
        }
        out
    }
}

// ---------------------------------------------------------------------------
// Paths

/// `base` joined with `rel` as a Unix path: an absolute `rel` replaces `base`, an
/// empty `base` gives `rel`, otherwise one `/` separates them.
pub open spec fn path_join(base: Seq<char>, rel: Seq<char>) -> Seq<char> {
    if rel.len() > 0 && rel[0] == '/' {
        rel
    } else if base.len() == 0 {
        rel
    } else if base.last() == '/' {
        base + rel
    } else {
        base + seq!['/'] + rel
    }
}

fn join_path(base: &str, rel: &str) -> (r: String)
    ensures
        r@ == path_join(base@, rel@),
{
    let rc = chars_of(rel);
    if rc.len() > 0 && rc[0] == '/' {
        return rel.to_owned();
    }
    let bc = chars_of(base);
    if bc.len() == 0 {
        return rel.to_owned();
    }
    let mut out = base.to_owned();
    if bc[bc.len() - 1] != '/' {
        push_char(&mut out, '/');
    }
    out.append(rel);
    out
}

/// Where a workspace's files live.
#[derive(Debug, PartialEq, Eq)]
pub struct WorkspacePaths {
    pub config_dir: String,
}

impl Clone for WorkspacePaths {
    fn clone(&self) -> (r: Self)
        ensures
            r == *self,
    {
        WorkspacePaths { config_dir: self.config_dir.clone() }
    }
}

impl WorkspacePaths {
    pub fn new(config_dir: &str) -> (r: Self)
        ensures
            r.config_dir@ == config_dir@,
    {
        WorkspacePaths { config_dir: config_dir.to_owned() }
    }

    pub fn config_file(&self) -> (r: String)
        ensures
            r@ == path_join(self.config_dir@, CONFIG_FILE@),
    {
        join_path(self.config_dir.as_str(), CONFIG_FILE)
    }

    pub fn recipes_file(&self) -> (r: String)
        ensures
            r@ == path_join(self.config_dir@, RECIPES_FILE@),
    {
        join_path(self.config_dir.as_str(), RECIPES_FILE)
    }

    pub fn directory_file(&self) -> (r: String)
        ensures
            r@ == path_join(self.config_dir@, DIRECTORY_FILE@),
    {
        join_path(self.config_dir.as_str(), DIRECTORY_FILE)
    }

    pub fn profiles_file(&self) -> (r: String)
        ensures
            r@ == path_join(self.config_dir@, PROFILES_FILE@),
    {
        join_path(self.config_dir.as_str(), PROFILES_FILE)
    }

    pub fn seeds_dir(&self) -> (r: String)
        ensures
            r@ == path_join(self.config_dir@, SEEDS_DIR@),
    {
        join_path(self.config_dir.as_str(), SEEDS_DIR)
    }

    pub fn history_dir(&self) -> (r: String)
        ensures
            r@ == path_join(self.config_dir@, HISTORY_DIR@),
    {
        join_path(self.config_dir.as_str(), HISTORY_DIR)
    }

    pub fn event_log_file(&self) -> (r: String)
        ensures
            r@ == path_join(self.config_dir@, EVENT_LOG_FILE@),
    {
        join_path(self.config_dir.as_str(), EVENT_LOG_FILE)
    }

    pub fn lock_file(&self) -> (r: String)
        ensures
            r@ == path_join(self.config_dir@, LOCK_FILE@),
    {
        join_path(self.config_dir.as_str(), LOCK_FILE)
    }

    /// A workspace-relative seed path, joined without any check.
    pub fn seed_file(&self, relative_path: &str) -> (r: String)
        ensures
            r@ == path_join(self.config_dir@, relative_path@),
    {
        join_path(self.config_dir.as_str(), relative_path)
    }
}

/// Refuses a seed path that is not a plain `seeds/...` path inside the workspace.
pub fn validate_seed_path(relative_path: &str) -> (r: Result<(), StorageError>)
    ensures
        r is Ok <==> safe_seed_path(relative_path@),
        r matches Err(e) ==> e matches StorageError::UnsafeSeedPath(p) && p@ == relative_path@,
{
    if is_safe_seed_path(relative_path) {
        Ok(())
    } else {
        Err(StorageError::UnsafeSeedPath(relative_path.to_owned()))
    }
}

/// The named parts of a path's `/`-separated parts: those that are not empty.
pub open spec fn named_parts(segs: Seq<Seq<char>>) -> Seq<Seq<char>>
    decreases segs.len(),
{
    if segs.len() == 0 {
        seq![]
    } else if segs.last().len() == 0 {
        named_parts(segs.drop_last())
    } else {
        named_parts(segs.drop_last()).push(segs.last())
    }
}

/// A path that starts at the root.
pub open spec fn is_absolute(p: Seq<char>) -> bool {
    p.len() > 0 && p[0] == '/'
}

/// `path` lies within `root`, comparing canonical paths part by part as
/// `Path::starts_with` does: both start at the root or neither does, and the named
/// parts of `root` begin those of `path`.
pub open spec fn path_within(root: Seq<char>, path: Seq<char>) -> bool {
    let a = named_parts(split_slash(root));
    let b = named_parts(split_slash(path));
    &&& is_absolute(root) == is_absolute(path)
    &&& a.len() <= b.len()
    &&& b.take(a.len() as int) == a
}

fn named_parts_of(value: &str) -> (r: Vec<Vec<char>>)
    ensures
        r@.map_values(|v: Vec<char>| v@) == named_parts(split_slash(value@)),
{
    let segs = split_path(value);
    let ghost all = split_slash(value@);
    let mut out: Vec<Vec<char>> = Vec::new();
    for i in 0..segs.len()
        invariant
            all == split_slash(value@),
            all == segs@.map_values(|v: Vec<char>| v@),
            out@.map_values(|v: Vec<char>| v@) == named_parts(all.take(i as int)),
    {
        let ghost before = out@.map_values(|v: Vec<char>| v@);
        assert(all.take(i + 1).drop_last() =~= all.take(i as int));
        assert(all[i as int] == segs@[i as int]@);
        if segs[i].len() > 0 {
            out.push(clone_chars(&segs[i]));
            assert(out@.map_values(|v: Vec<char>| v@) =~= before.push(all[i as int]));
        }
    }
    assert(all.take(segs.len() as int) =~= all);
    out
}

fn clone_chars(v: &Vec<char>) -> (r: Vec<char>)
    ensures
        r@ == v@,
{
    let mut out: Vec<char> = Vec::new();
    for i in 0..v.len()
        invariant
            out@ == v@.take(i as int),
    {
        out.push(v[i]);
        assert(out@ =~= v@.take(i + 1));
    }
    assert(v@.take(v.len() as int) =~= v@);
    out
}

/// Whether the canonical path `path` lies within the canonical directory `root`:
/// the containment check applied to a seed file once its symbolic links are resolved.
pub fn seed_path_within(root: &str, path: &str) -> (r: bool)
    ensures
        r == path_within(root@, path@),
{
    let rc = chars_of(root);
    let pc = chars_of(path);
    let root_abs = rc.len() > 0 && rc[0] == '/';
    let path_abs = pc.len() > 0 && pc[0] == '/';
    if root_abs != path_abs {
        return false;
    }
    let a = named_parts_of(root);
    let b = named_parts_of(path);
    let ghost av = a@.map_values(|v: Vec<char>| v@);
    let ghost bv = b@.map_values(|v: Vec<char>| v@);
    if a.len() > b.len() {
        return false;
    }
    for i in 0..a.len()
        invariant
            av == a@.map_values(|v: Vec<char>| v@),
            bv == b@.map_values(|v: Vec<char>| v@),
            av == named_parts(split_slash(root@)),
            bv == named_parts(split_slash(path@)),
            is_absolute(root@) == is_absolute(path@),
            a.len() <= b.len(),
            forall|j: int| 0 <= j < i ==> av[j] == bv[j],
    {
        assert(av[i as int] == a@[i as int]@ && bv[i as int] == b@[i as int]@);
        if !seq_eq_chars(&a[i], &b[i]) {
            assert(bv.take(av.len() as int)[i as int] != av[i as int]);
            return false;
        }
    }
    assert(bv.take(av.len() as int) =~= av);
    true
}

// ---------------------------------------------------------------------------
// Strict loading

/// The duplicate-key preflight that strict loading runs on a file's text before
/// typed parsing; its error names the file.
pub fn preflight_yaml(path: &str, text: &str) -> (r: Result<(), StorageError>)
    requires
        text@.len() + 2 <= usize::MAX,
    ensures
        match (r, yaml_issue(text@)) {
            (Ok(()), None) => true,
            (Err(StorageError::Codec { path: p, source }), Some((n, code, k))) => {
                &&& p@ == path@
                &&& match source {
                    CodecError::DuplicateYamlKey { key, line } => code == 0 && key@ == k && line
                        as nat == n,
                    CodecError::UnsupportedYamlSyntax { line, reason } => code != 0 && reason@
                        == reason_text(code) && line as nat == n,
                    _ => false,
                }
            },
            _ => false,
        },
{
    match reject_duplicate_yaml_keys(text) {
        Ok(()) => Ok(()),
        Err(source) => Err(StorageError::Codec { path: path.to_owned(), source }),
    }
}

// ---------------------------------------------------------------------------
// Validation

/// The recipes, directory and profiles of a workspace.
#[derive(Debug, PartialEq, Eq)]
pub struct Workspace {
    pub recipes: RecipesFile,
    pub directory: Option<DirectoryFile>,
    pub profiles: Option<ProfilesFile>,
}

/// The findings of a workspace validation, in order.
#[derive(Debug, PartialEq, Eq)]
pub struct ValidationReport {
    pub diagnostics: Vec<Diagnostic>,
}

impl Clone for ValidationReport {
    fn clone(&self) -> (r: Self)
        ensures
            r.diagnostics@ == self.diagnostics@,
    {
        let mut diagnostics: Vec<Diagnostic> = Vec::new();
        for i in 0..self.diagnostics.len()
            invariant
                diagnostics@ == self.diagnostics@.take(i as int),
        {
            diagnostics.push(self.diagnostics[i].clone());
            assert(diagnostics@ =~= self.diagnostics@.take(i + 1));
        }
        assert(self.diagnostics@.take(self.diagnostics.len() as int) =~= self.diagnostics@);
        ValidationReport { diagnostics }
    }
}

/// The diagnostics among `ds` whose severity is `severity`, as references, in order.
fn select_severity(ds: &Vec<Diagnostic>, severity: Severity) -> (r: Vec<&Diagnostic>)
    ensures
        r@.map_values(|d: &Diagnostic| d@) == diags_view(ds@).filter(|x: DiagView| x.0 == severity),
{
    let ghost all = diags_view(ds@);
    let mut out: Vec<&Diagnostic> = Vec::new();
    for i in 0..ds.len()
        invariant
            all == diags_view(ds@),
            out@.map_values(|d: &Diagnostic| d@) == all.take(i as int).filter(
                |x: DiagView| x.0 == severity,
            ),
    {
        proof {
            reveal_with_fuel(Seq::filter, 1);
            assert(all.take(i + 1).drop_last() =~= all.take(i as int));
        }
        let ghost before = out@.map_values(|d: &Diagnostic| d@);
        if ds[i].severity == severity {
            out.push(&ds[i]);
            assert(out@.map_values(|d: &Diagnostic| d@) =~= before.push(all[i as int]));
        }
    }
    assert(all.take(ds.len() as int) =~= all);
    out
}

impl ValidationReport {
    /// The hard errors, in order.
    pub fn hard_errors(&self) -> (r: Vec<&Diagnostic>)
        ensures
            r@.map_values(|d: &Diagnostic| d@) == diags_view(self.diagnostics@).filter(
                |x: DiagView| is_hard(x),
            ),
    {
        let r = select_severity(&self.diagnostics, Severity::HardError);
        assert((|x: DiagView| x.0 == Severity::HardError) =~= (|x: DiagView| is_hard(x)));
        r
    }

    /// The warnings, in order.
    pub fn warnings(&self) -> (r: Vec<&Diagnostic>)
        ensures
            r@.map_values(|d: &Diagnostic| d@) == diags_view(self.diagnostics@).filter(
                |x: DiagView| is_warning(x),
            ),
    {
        let r = select_severity(&self.diagnostics, Severity::Warning);
        assert((|x: DiagView| x.0 == Severity::Warning) =~= (|x: DiagView| is_warning(x)));
        r
    }

    /// No finding is a hard error.
    pub fn is_hard_valid(&self) -> (r: bool)
        ensures
            r == (diags_view(self.diagnostics@).filter(|x: DiagView| is_hard(x)).len() == 0),
    {
        let hard_errors = self.hard_errors();
        let r = hard_errors.len() == 0;
        assert(hard_errors@.map_values(|d: &Diagnostic| d@).len() == hard_errors@.len());
        r
    }
}

// ---------------------------------------------------------------------------
// Seed files on disk

/// What the caller found for one seed record's file.
#[derive(Debug)]
pub enum SeedFileStatus {
    /// Resolving the recorded path failed.
    Unresolved(StorageError),
    /// No file exists at the resolved path.
    Missing { path: String },
    /// The file's metadata could not be read.
    Uninspectable { path: String, message: String },
    /// The file exists; `mode` holds its Unix permission bits where the platform has them.
    Present { path: String, mode: Option<u32> },
}

/// Findings for one seed file: a hard error when it cannot be resolved, found or
/// inspected, and a warning when group or others have any permission on it.
pub open spec fn seed_file_diags(s: SeedFileStatus) -> Seq<DiagView> {
    match s {
        SeedFileStatus::Unresolved(e) => seq![hard(storage_message(e))],
        SeedFileStatus::Missing { path } => seq![hard("missing seed file: "@ + path@)],
        SeedFileStatus::Uninspectable { path, message } => seq![
            hard("cannot inspect seed file "@ + path@ + ": "@ + message@),
        ],
        SeedFileStatus::Present { path, mode } => match mode {
            Some(m) => diag_if(
                (m & 0o777u32) & 0o077u32 != 0,
                (
                    Severity::Warning,
                    "seed file permissions are too broad: "@ + path@ + " mode "@ + octal(
                        (m & 0o777u32) as nat,
                    ),
                ),
            ),
            None => seq![],
        },
    }
}

/// Findings for seed files, file by file.
pub open spec fn seed_files_diags(ss: Seq<SeedFileStatus>) -> Seq<DiagView>
    decreases ss.len(),
{
    if ss.len() == 0 {
        seq![]
    } else {
        seed_files_diags(ss.drop_last()) + seed_file_diags(ss.last())
    }
}

fn push_seed_file_diags(out: &mut Vec<Diagnostic>, s: &SeedFileStatus)
    ensures
        diags_view(final(out)@) == diags_view(old(out)@) + seed_file_diags(*s),
{
    let ghost start = diags_view(out@);
    match s {
        SeedFileStatus::Unresolved(e) => {
            out.push(Diagnostic::hard(e.message()));
        },
        SeedFileStatus::Missing { path } => {
            let m = crate::text::concat2("missing seed file: ", path.as_str());
            out.push(Diagnostic::hard(m));
        },
        SeedFileStatus::Uninspectable { path, message } => {
            let mut m = String::new();
            m.append("cannot inspect seed file ");
            m.append(path.as_str());
            m.append(": ");
            m.append(message.as_str());
            out.push(Diagnostic::hard(m));
        },
        SeedFileStatus::Present { path, mode } => {
            if let Some(m) = mode {
                let bits = *m & 0o777u32;
                if bits & 0o077u32 != 0 {
                    let mut text = String::new();
                    text.append("seed file permissions are too broad: ");
                    text.append(path.as_str());
                    text.append(" mode ");
                    push_octal(&mut text, bits);
                    out.push(Diagnostic::warning(text));
                }
            }
        },
    }
    assert(diags_view(out@) =~= start + seed_file_diags(*s));
}

/// Findings for the seed files, in the order the caller lists them.
pub fn seed_file_diagnostics(statuses: &Vec<SeedFileStatus>) -> (r: Vec<Diagnostic>)
    ensures
        diags_view(r@) == seed_files_diags(statuses@),
{
    let mut out: Vec<Diagnostic> = Vec::new();
    for i in 0..statuses.len()
        invariant
            diags_view(out@) == seed_files_diags(statuses@.take(i as int)),
    {
        push_seed_file_diags(&mut out, &statuses[i]);
        proof {
            let next = statuses@.take(i + 1);
            assert(next.drop_last() =~= statuses@.take(i as int));
        }
    }
    assert(statuses@.take(statuses.len() as int) =~= statuses@);
    out
}

/// The findings of a workspace: recipes with the directory, then (when the caller
/// looked at the disk) the seed files.
pub open spec fn workspace_findings(w: Workspace, seed_files: Option<Seq<SeedFileStatus>>) -> Seq<DiagView> {
    workspace_diags(w.recipes, w.directory) + match seed_files {
        Some(ss) => seed_files_diags(ss),
        None => seq![],
    }
}

impl Workspace {
    /// Validates the recipes with the directory, and, given what was found for each
    /// seed record's file, the seed files.
    pub fn validate(&self, seed_files: Option<&Vec<SeedFileStatus>>) -> (r: ValidationReport)
        ensures
            diags_view(r.diagnostics@) == workspace_findings(
                *self,
                match seed_files {
                    Some(v) => Some(v@),
                    None => None,
                },
            ),
    {
        let mut diagnostics = self.recipes.validate_with_directory(self.directory.as_ref());
        if let Some(statuses) = seed_files {
            crate::model::extend_diags(&mut diagnostics, seed_file_diagnostics(statuses));
        }
        ValidationReport { diagnostics }
    }

    /// Derivation is allowed only when validation finds no hard error; otherwise
    /// the hard errors, in order.
    pub fn ensure_derivation_allowed(&self, seed_files: Option<&Vec<SeedFileStatus>>) -> (r: Result<(), Vec<Diagnostic>>)
        ensures
            ({
                let hs = workspace_findings(
                    *self,
                    match seed_files {
                        Some(v) => Some(v@),
                        None => None,
                    },
                ).filter(|x: DiagView| is_hard(x));
                match r {
                    Ok(()) => hs.len() == 0,
                    Err(v) => hs.len() > 0 && diags_view(v@) == hs,
                }
            }),
    {
        let report = self.validate(seed_files);
        let hard_errors = crate::validate::hard_only(report.diagnostics);
        if hard_errors.len() == 0 {
            Ok(())
        } else {
            Err(hard_errors)
        }
    }

    /// Derivation under `--strict`: allowed only when validation finds nothing at
    /// all, warnings included; otherwise every finding, in order.
    pub fn ensure_strict_derivation_allowed(&self, seed_files: Option<&Vec<SeedFileStatus>>) -> (r: Result<(), Vec<Diagnostic>>)
        ensures
            ({
                let fs = workspace_findings(
                    *self,
                    match seed_files {
                        Some(v) => Some(v@),
                        None => None,
                    },
                );
                match r {
                    Ok(()) => fs.len() == 0,
                    Err(v) => fs.len() > 0 && diags_view(v@) == fs,
                }
            }),
    {
        let report = self.validate(seed_files);
        if report.diagnostics.len() == 0 {
            Ok(())
        } else {
            Err(report.diagnostics)
        }
    }
}

} // verus!
