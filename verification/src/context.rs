use vstd::prelude::*;

use crate::cli::Cli;
use crate::config::{clippy_args_spec, level_spec, Config, ConfigLayer};
use crate::diagnostics::Level;
use crate::error::Error;
use crate::filesystem::{canonicalize, is_regular_file};
use crate::packages::{packages_for_files, reported, strictly_ascending, names_of, PackageDir};
use crate::paths::{is_canonical, join_spec, parent_spec, starts_with, ComponentModel, FsPath};

verus! {

/// A package as `cargo metadata` describes it.
#[derive(Debug)]
pub struct PackageMetadata {
    pub id: String,
    pub name: String,
    pub manifest_path: FsPath,
}

/// What `cargo metadata` tells of the workspace.
#[derive(Debug)]
pub struct WorkspaceMetadata {
    pub workspace_root: FsPath,
    pub workspace_members: Vec<String>,
    pub packages: Vec<PackageMetadata>,
}

/// A file of the command line that is left out, and why.
#[derive(Debug)]
pub enum FileWarning {
    /// The file resolves to something that is not a regular file.
    NotARegularFile { path: FsPath },
    /// The file resolves to a path outside the workspace root; `resolved` is that path
    /// where it differs from the file joined onto the root.
    OutsideWorkspace { file: FsPath, resolved: Option<FsPath> },
}

/// What a warning says, over path models.
pub enum WarningModel {
    NotARegularFile(Seq<ComponentModel>),
    OutsideWorkspace(Seq<ComponentModel>, Option<Seq<ComponentModel>>),
}

impl View for FileWarning {
    type V = WarningModel;

    open spec fn view(&self) -> WarningModel {
        match self {
            FileWarning::NotARegularFile { path } => WarningModel::NotARegularFile(path@),
            FileWarning::OutsideWorkspace { file, resolved } => WarningModel::OutsideWorkspace(
                file@,
                match resolved {
                    Some(r) => Some(r@),
                    None => None,
                },
            ),
        }
    }
}

/// What the file system said of one file of the command line: its canonical form, and
/// whether that is a regular file.
#[derive(Debug)]
pub struct FileProbe {
    pub canonical: Result<FsPath, std::io::Error>,
    pub is_file: bool,
}

/// The files that are reported on, and the warnings for those that are left out.
#[derive(Debug)]
pub struct ResolvedFiles {
    /// A set of paths held as a list in which no path occurs twice: a hashed set of paths
    /// would rest on a hash of paths that Verus has no model of.
    pub files: Vec<FsPath>,
    pub warnings: Vec<FileWarning>,
}

/// The resolved settings of a run.
#[derive(Debug)]
pub struct Context {
    pub workspace_root: FsPath,
    pub workspace_packages: Vec<String>,
    pub level: Level,
    /// The files reported on, a list in which no path occurs twice (see `ResolvedFiles`).
    pub files: Vec<FsPath>,
    pub clippy_args: Vec<String>,
}

/// The probe kept the file: it resolved under the workspace root, to a regular file.
pub open spec fn probe_kept(root: Seq<ComponentModel>, probe: FileProbe) -> bool {
    match probe.canonical {
        Ok(r) => starts_with(r@, root) && probe.is_file,
        Err(_) => false,
    }
}

/// The canonical path of a probe that resolved.
pub open spec fn probe_path(probe: FileProbe) -> Seq<ComponentModel> {
    match probe.canonical {
        Ok(r) => r@,
        Err(_) => Seq::empty(),
    }
}

/// The files kept by the first `n` probes, each once, in the order first seen.
pub open spec fn kept_paths(root: Seq<ComponentModel>, probes: Seq<FileProbe>, n: int) -> Seq<Seq<ComponentModel>>
    decreases n,
{
    if n <= 0 {
        Seq::empty()
    } else {
        let prev = kept_paths(root, probes, n - 1);
        if probe_kept(root, probes[n - 1]) && !prev.contains(probe_path(probes[n - 1])) {
            prev.push(probe_path(probes[n - 1]))
        } else {
            prev
        }
    }
}

/// The warning for a file that resolved, if it is left out.
pub open spec fn warning_for(root: Seq<ComponentModel>, file: Seq<ComponentModel>, probe: FileProbe) -> Option<WarningModel> {
    match probe.canonical {
        Ok(r) => if starts_with(r@, root) {
            if probe.is_file {
                None
            } else {
                Some(WarningModel::NotARegularFile(r@))
            }
        } else {
            Some(
                WarningModel::OutsideWorkspace(
                    file,
                    if r@ == join_spec(root, file) {
                        None
                    } else {
                        Some(r@)
                    },
                ),
            )
        },
        Err(_) => None,
    }
}

/// The warnings for the first `n` files, in order.
pub open spec fn warnings_spec(root: Seq<ComponentModel>, files: Seq<FsPath>, probes: Seq<FileProbe>, n: int) -> Seq<WarningModel>
    decreases n,
{
    if n <= 0 {
        Seq::empty()
    } else {
        let prev = warnings_spec(root, files, probes, n - 1);
        match warning_for(root, files[n - 1]@, probes[n - 1]) {
            Some(w) => prev.push(w),
            None => prev,
        }
    }
}

/// The path models of a list of paths.
pub open spec fn paths_of(paths: Seq<FsPath>) -> Seq<Seq<ComponentModel>> {
    paths.map_values(|p: FsPath| p@)
}

/// No path occurs twice.
pub open spec fn no_repeats(paths: Seq<Seq<ComponentModel>>) -> bool {
    forall|a: int, b: int| 0 <= a < b < paths.len() ==> paths[a] != paths[b]
}

proof fn lemma_kept_paths_facts(root: Seq<ComponentModel>, probes: Seq<FileProbe>, n: int)
    requires
        0 <= n <= probes.len(),
    ensures
        no_repeats(kept_paths(root, probes, n)),
        forall|x: Seq<ComponentModel>|
            kept_paths(root, probes, n).contains(x) <==> exists|k: int|
                0 <= k < n && #[trigger] probe_kept(root, probes[k]) && probe_path(probes[k]) == x,
    decreases n,
{
    if n > 0 {
        lemma_kept_paths_facts(root, probes, n - 1);
        let prev = kept_paths(root, probes, n - 1);
        let cur = kept_paths(root, probes, n);
        assert forall|x: Seq<ComponentModel>|
            cur.contains(x) <==> exists|k: int|
                0 <= k < n && #[trigger] probe_kept(root, probes[k]) && probe_path(probes[k]) == x by {
            if cur.contains(x) && !prev.contains(x) {
                assert(cur == prev.push(probe_path(probes[n - 1])));
                let m = choose|m: int| 0 <= m < cur.len() && cur[m] == x;
                assert(m == prev.len());
                assert(probe_kept(root, probes[n - 1]));
            }
            if exists|k: int| 0 <= k < n && #[trigger] probe_kept(root, probes[k]) && probe_path(probes[k]) == x {
                let k = choose|k: int| 0 <= k < n && #[trigger] probe_kept(root, probes[k]) && probe_path(probes[k]) == x;
                if k == n - 1 && !prev.contains(x) {
                    assert(cur == prev.push(x));
                    assert(cur[prev.len() as int] == x);
                } else if k < n - 1 {
                    assert(prev.contains(x));
                    let m = choose|m: int| 0 <= m < prev.len() && prev[m] == x;
                    assert(cur[m] == x);
                }
            }
        }
    }
}

/// Decides, from what the file system said of each file, which files are reported on and
/// which are left out with a warning. Fails on the first file that did not resolve.
pub fn collect_files(files: &Vec<FsPath>, workspace_root: &FsPath, probes: Vec<FileProbe>) -> (r: Result<ResolvedFiles, Error>)
    requires
        probes@.len() == files@.len(),
    ensures
        match r {
            Ok(resolved) => {
                &&& forall|k: int| 0 <= k < probes@.len() ==> (#[trigger] probes@[k]).canonical is Ok
                &&& paths_of(resolved.files@) == kept_paths(workspace_root@, probes@, probes@.len() as int)
                &&& resolved.warnings@.map_values(|w: FileWarning| w@) == warnings_spec(
                    workspace_root@,
                    files@,
                    probes@,
                    probes@.len() as int,
                )
            },
            Err(Error::PathResolution { path, source: _ }) => exists|k: int|
                0 <= k < probes@.len() && (#[trigger] probes@[k]).canonical is Err && (forall|j: int|
                    0 <= j < k ==> (#[trigger] probes@[j]).canonical is Ok) && path@ == join_spec(
                    workspace_root@,
                    files@[k]@,
                ),
            Err(_) => false,
        },
{
    let n = files.len();
    let mut kept: Vec<FsPath> = Vec::new();
    let mut warnings: Vec<FileWarning> = Vec::new();
    let mut k: usize = 0;
    while k < n
        invariant
            n == files@.len(),
            n == probes@.len(),
            0 <= k <= n,
            forall|j: int| 0 <= j < k ==> (#[trigger] probes@[j]).canonical is Ok,
            paths_of(kept@) == kept_paths(workspace_root@, probes@, k as int),
            warnings@.map_values(|w: FileWarning| w@) == warnings_spec(workspace_root@, files@, probes@, k as int),
        ensures
            0 <= k <= n,
            forall|j: int| 0 <= j < k ==> (#[trigger] probes@[j]).canonical is Ok,
            paths_of(kept@) == kept_paths(workspace_root@, probes@, k as int),
            warnings@.map_values(|w: FileWarning| w@) == warnings_spec(workspace_root@, files@, probes@, k as int),
            k < n ==> probes@[k as int].canonical is Err,
        decreases n - k,
    {
        match &probes[k].canonical {
            Err(_) => {
                break;
            },
            Ok(resolved) => {
                let ghost before_kept = paths_of(kept@);
                let ghost before_warnings = warnings@.map_values(|w: FileWarning| w@);
                if resolved.starts_with(workspace_root) {
                    if probes[k].is_file {
                        let mut seen = false;
                        let mut m: usize = 0;
                        while m < kept.len()
                            invariant
                                0 <= m <= kept@.len(),
                                seen == exists|q: int| 0 <= q < m && (#[trigger] kept@[q])@ == resolved@,
                            decreases kept@.len() - m,
                        {
                            if kept[m].same_as(resolved) {
                                seen = true;
                            }
                            m = m + 1;
                        }
                        proof {
                            lemma_kept_paths_facts(workspace_root@, probes@, k as int);
                            if seen {
                                let q = choose|q: int| 0 <= q < kept@.len() && (#[trigger] kept@[q])@ == resolved@;
                                assert(paths_of(kept@)[q] == resolved@);
                            }
                            if before_kept.contains(resolved@) {
                                let q = choose|q: int| 0 <= q < before_kept.len() && before_kept[q] == resolved@;
                                assert(kept@[q]@ == resolved@);
                            }
                        }
                        if !seen {
                            kept.push(resolved.clone());
                            proof {
                                assert(paths_of(kept@) =~= before_kept.push(resolved@));
                            }
                        }
                    } else {
                        warnings.push(FileWarning::NotARegularFile { path: resolved.clone() });
                        proof {
                            assert(warnings@.map_values(|w: FileWarning| w@) =~= before_warnings.push(
                                WarningModel::NotARegularFile(resolved@),
                            ));
                        }
                    }
                } else {
                    let joined = workspace_root.join(&files[k]);
                    let shown = if resolved.same_as(&joined) {
                        None
                    } else {
                        Some(resolved.clone())
                    };
                    let ghost shown_model = match &shown {
                        Some(p) => Some(p@),
                        None => None::<Seq<ComponentModel>>,
                    };
                    warnings.push(FileWarning::OutsideWorkspace { file: files[k].clone(), resolved: shown });
                    proof {
                        assert(warnings@.map_values(|w: FileWarning| w@) =~= before_warnings.push(
                            WarningModel::OutsideWorkspace(files@[k as int]@, shown_model),
                        ));
                    }
                }
            },
        }
        k = k + 1;
    }
    if k < n {
        let mut probes = probes;
        let failed = probes.remove(k);
        if let Err(source) = failed.canonical {
            return Err(Error::PathResolution { path: workspace_root.join(&files[k]), source });
        }
    }
    Ok(ResolvedFiles { files: kept, warnings })
}

/// Each probe resolved, to a canonical path.
pub open spec fn all_resolved(probes: Seq<FileProbe>) -> bool {
    forall|k: int|
        0 <= k < probes.len() ==> (#[trigger] probes[k]).canonical is Ok && is_canonical(probe_path(probes[k]))
}

/// `resolved` is what `collect_files` decides from the probes of the files, all of which
/// resolved, to canonical paths.
pub open spec fn decided_by(files: Seq<FsPath>, root: Seq<ComponentModel>, probes: Seq<FileProbe>, resolved: ResolvedFiles) -> bool {
    &&& probes.len() == files.len()
    &&& all_resolved(probes)
    &&& paths_of(resolved.files@) == kept_paths(root, probes, probes.len() as int)
    &&& resolved.warnings@.map_values(|w: FileWarning| w@) == warnings_spec(root, files, probes, probes.len() as int)
}

/// `path` is what `collect_files` fails with on the probes of the files: the first file
/// that did not resolve, joined onto the root, where the files before it resolved to
/// canonical paths.
pub open spec fn failed_at(files: Seq<FsPath>, root: Seq<ComponentModel>, probes: Seq<FileProbe>, path: Seq<ComponentModel>) -> bool {
    &&& probes.len() == files.len()
    &&& exists|k: int|
        0 <= k < probes.len() && (#[trigger] probes[k]).canonical is Err && all_resolved(probes.take(k))
            && path == join_spec(root, files[k]@)
}

/// Resolves the files of the command line against the file system and decides which are
/// reported on: each file is joined onto the root and resolved, and `collect_files`
/// decides from what the file system said. Whatever it said, the files kept are
/// canonical, lie under the workspace root and occur once each; a failure names the first
/// file that did not resolve, joined onto the root; with no files there is no failure.
pub fn resolve_files(files: &Vec<FsPath>, workspace_root: &FsPath) -> (r: Result<ResolvedFiles, Error>)
    ensures
        match r {
            Ok(resolved) => {
                &&& no_repeats(paths_of(resolved.files@))
                &&& forall|k: int|
                    0 <= k < resolved.files@.len() ==> starts_with(
                        (#[trigger] resolved.files@[k])@,
                        workspace_root@,
                    )
                &&& forall|k: int|
                    0 <= k < resolved.files@.len() ==> is_canonical((#[trigger] resolved.files@[k])@)
                &&& resolved.files@.len() + resolved.warnings@.len() <= files@.len()
                &&& exists|probes: Seq<FileProbe>| #[trigger] decided_by(files@, workspace_root@, probes, resolved)
            },
            Err(Error::PathResolution { path, source: _ }) => exists|probes: Seq<FileProbe>|
                #[trigger] failed_at(files@, workspace_root@, probes, path@),
            Err(_) => false,
        },
        files@.len() == 0 ==> r is Ok,
{
    let n = files.len();
    let mut probes: Vec<FileProbe> = Vec::new();
    for k in 0..n
        invariant
            n == files@.len(),
            probes@.len() == k,
            forall|j: int| 0 <= j < k ==> ((#[trigger] probes@[j]).canonical is Ok ==> is_canonical(probe_path(probes@[j]))),
    {
        let joined = workspace_root.join(&files[k]);
        let canonical = canonicalize(&joined);
        let is_file = match &canonical {
            Ok(p) => is_regular_file(p),
            Err(_) => false,
        };
        let probe = FileProbe { canonical, is_file };
        let ghost pushed = probe;
        probes.push(probe);
        assert(probes@[k as int] == pushed);
    }
    let ghost all = probes@;
    let r = collect_files(files, workspace_root, probes);
    proof {
        if let Err(Error::PathResolution { path, source: _ }) = &r {
            let k = choose|k: int|
                0 <= k < all.len() && (#[trigger] all[k]).canonical is Err && (forall|j: int|
                    0 <= j < k ==> (#[trigger] all[j]).canonical is Ok) && path@ == join_spec(
                    workspace_root@,
                    files@[k]@,
                );
            assert(all_resolved(all.take(k)));
            assert(failed_at(files@, workspace_root@, all, path@));
        }
        if let Ok(resolved) = &r {
            assert(all_resolved(all));
            lemma_kept_paths_facts(workspace_root@, all, n as int);
            lemma_warnings_len(workspace_root@, files@, all, n as int);
            lemma_kept_paths_len(workspace_root@, files@, all, n as int);
            assert(decided_by(files@, workspace_root@, all, *resolved));
            assert forall|k: int| 0 <= k < resolved.files@.len() implies starts_with(
                (#[trigger] resolved.files@[k])@,
                workspace_root@,
            ) by {
                let x = paths_of(resolved.files@)[k];
                assert(kept_paths(workspace_root@, all, n as int).contains(x));
            }
            assert forall|k: int| 0 <= k < resolved.files@.len() implies is_canonical((#[trigger] resolved.files@[k])@) by {
                let x = paths_of(resolved.files@)[k];
                assert(kept_paths(workspace_root@, all, n as int).contains(x));
                let q = choose|q: int| 0 <= q < n && #[trigger] probe_kept(workspace_root@, all[q]) && probe_path(all[q]) == x;
            }
        }
    }
    r
}

proof fn lemma_warnings_len(root: Seq<ComponentModel>, files: Seq<FsPath>, probes: Seq<FileProbe>, n: int)
    requires
        0 <= n,
    ensures
        warnings_spec(root, files, probes, n).len() <= n,
    decreases n,
{
    if n > 0 {
        lemma_warnings_len(root, files, probes, n - 1);
    }
}

proof fn lemma_kept_paths_len(root: Seq<ComponentModel>, files: Seq<FsPath>, probes: Seq<FileProbe>, n: int)
    requires
        0 <= n,
    ensures
        kept_paths(root, probes, n).len() + warnings_spec(root, files, probes, n).len() <= n,
    decreases n,
{
    if n > 0 {
        lemma_kept_paths_len(root, files, probes, n - 1);
    }
}

/// The file system answered for some file that it resolves to `path`, which is a regular
/// file or not as `is_file` says.
pub open spec fn answers(probes: Seq<FileProbe>, path: Seq<ComponentModel>, is_file: bool) -> bool {
    exists|k: int|
        0 <= k < probes.len() && (#[trigger] probes[k]).canonical is Ok && probe_path(probes[k]) == path
            && probes[k].is_file == is_file
}

/// The files kept depend only on the set of paths that the files resolved to, not on the
/// order or repetition of the files, nor on how each was spelled: two lists of files whose
/// answers name the same resolved paths keep the same files, each once.
pub proof fn law_kept_files_depend_on_the_resolved_set(
    root: Seq<ComponentModel>,
    probes1: Seq<FileProbe>,
    probes2: Seq<FileProbe>,
)
    requires
        all_resolved(probes1),
        all_resolved(probes2),
        forall|path: Seq<ComponentModel>, is_file: bool|
            #[trigger] answers(probes1, path, is_file) <==> answers(probes2, path, is_file),
    ensures
        no_repeats(kept_paths(root, probes1, probes1.len() as int)),
        no_repeats(kept_paths(root, probes2, probes2.len() as int)),
        forall|x: Seq<ComponentModel>|
            #[trigger] kept_paths(root, probes1, probes1.len() as int).contains(x) <==> kept_paths(
                root,
                probes2,
                probes2.len() as int,
            ).contains(x),
{
    lemma_kept_paths_facts(root, probes1, probes1.len() as int);
    lemma_kept_paths_facts(root, probes2, probes2.len() as int);
    assert forall|x: Seq<ComponentModel>|
        #[trigger] kept_paths(root, probes1, probes1.len() as int).contains(x) <==> kept_paths(
            root,
            probes2,
            probes2.len() as int,
        ).contains(x) by {
        if kept_paths(root, probes1, probes1.len() as int).contains(x) {
            let k = choose|k: int|
                0 <= k < probes1.len() && #[trigger] probe_kept(root, probes1[k]) && probe_path(probes1[k]) == x;
            assert(answers(probes1, x, true));
            assert(answers(probes2, x, true));
            let k2 = choose|k2: int|
                0 <= k2 < probes2.len() && (#[trigger] probes2[k2]).canonical is Ok && probe_path(probes2[k2]) == x
                    && probes2[k2].is_file == true;
            assert(probe_kept(root, probes2[k2]));
        }
        if kept_paths(root, probes2, probes2.len() as int).contains(x) {
            let k = choose|k: int|
                0 <= k < probes2.len() && #[trigger] probe_kept(root, probes2[k]) && probe_path(probes2[k]) == x;
            assert(answers(probes2, x, true));
            assert(answers(probes1, x, true));
            let k1 = choose|k1: int|
                0 <= k1 < probes1.len() && (#[trigger] probes1[k1]).canonical is Ok && probe_path(probes1[k1]) == x
                    && probes1[k1].is_file == true;
            assert(probe_kept(root, probes1[k1]));
        }
    }
}

/// The identifier is one of the workspace members.
pub open spec fn is_member(members: Seq<String>, id: Seq<char>) -> bool {
    exists|i: int| 0 <= i < members.len() && (#[trigger] members[i])@ == id
}

/// The workspace packages among the first `n` packages that have a manifest directory:
/// their names and manifest directories, in order.
pub open spec fn package_candidates(members: Seq<String>, packages: Seq<PackageMetadata>, n: int) -> Seq<(Seq<char>, Seq<ComponentModel>)>
    decreases n,
{
    if n <= 0 {
        Seq::empty()
    } else {
        let prev = package_candidates(members, packages, n - 1);
        let p = packages[n - 1];
        if is_member(members, p.id@) && parent_spec(p.manifest_path@) is Some {
            prev.push((p.name@, parent_spec(p.manifest_path@)->0))
        } else {
            prev
        }
    }
}

/// The workspace packages of the metadata with a manifest directory.
pub open spec fn workspace_candidates(metadata: WorkspaceMetadata) -> Seq<(Seq<char>, Seq<ComponentModel>)> {
    package_candidates(metadata.workspace_members@, metadata.packages@, metadata.packages@.len() as int)
}

/// The package list names the candidates in order.
pub open spec fn names_candidates(dirs: Seq<PackageDir>, candidates: Seq<(Seq<char>, Seq<ComponentModel>)>) -> bool {
    &&& dirs.len() == candidates.len()
    &&& forall|i: int| 0 <= i < dirs.len() ==> (#[trigger] dirs[i]).name@ == candidates[i].0
}

/// Whether the identifier is one of the workspace members.
fn is_workspace_member(members: &Vec<String>, id: &String) -> (b: bool)
    ensures
        b == is_member(members@, id@),
{
    let n = members.len();
    for i in 0..n
        invariant
            n == members@.len(),
            forall|j: int| 0 <= j < i ==> (#[trigger] members@[j])@ != id@,
    {
        if members[i] == *id {
            return true;
        }
    }
    false
}

/// The names and directories of a list of packages.
pub open spec fn name_dir_pairs(dirs: Seq<PackageDir>) -> Seq<(Seq<char>, Seq<ComponentModel>)> {
    dirs.map_values(|d: PackageDir| (d.name@, d.dir@))
}

/// The workspace packages of the metadata that have a manifest directory, with that
/// directory (`Metadata::workspace_packages` and `Path::parent`), in metadata order.
pub fn package_candidates_of(metadata: &WorkspaceMetadata) -> (candidates: Vec<PackageDir>)
    ensures
        name_dir_pairs(candidates@) == workspace_candidates(*metadata),
{
    let n = metadata.packages.len();
    let mut candidates: Vec<PackageDir> = Vec::new();
    for k in 0..n
        invariant
            n == metadata.packages@.len(),
            name_dir_pairs(candidates@) == package_candidates(metadata.workspace_members@, metadata.packages@, k as int),
    {
        let ghost before = name_dir_pairs(candidates@);
        let p = &metadata.packages[k];
        if is_workspace_member(&metadata.workspace_members, &p.id) {
            if let Some(dir) = p.manifest_path.parent() {
                let candidate = PackageDir { name: p.name.clone(), dir };
                let ghost pushed = candidate;
                candidates.push(candidate);
                assert(name_dir_pairs(candidates@) =~= before.push((pushed.name@, pushed.dir@)));
            }
        }
    }
    candidates
}

/// The path of an outcome that resolved.
pub open spec fn outcome_path(outcome: Result<FsPath, std::io::Error>) -> Seq<ComponentModel> {
    match outcome {
        Ok(p) => p@,
        Err(_) => Seq::empty(),
    }
}

/// Decides, from what the file system said of the candidates' directories in order (ending
/// at the first failure, if there is one), the packages with their canonical directories,
/// or the failure, which names the directory of the first candidate that did not resolve.
pub fn collect_package_dirs(candidates: &Vec<PackageDir>, outcomes: Vec<Result<FsPath, std::io::Error>>) -> (r: Result<Vec<PackageDir>, Error>)
    requires
        outcomes@.len() <= candidates@.len(),
        outcomes@.len() < candidates@.len() ==> outcomes@.len() > 0 && outcomes@.last() is Err,
    ensures
        match r {
            Ok(dirs) => {
                &&& outcomes@.len() == candidates@.len()
                &&& forall|k: int| 0 <= k < outcomes@.len() ==> (#[trigger] outcomes@[k]) is Ok
                &&& dirs@.len() == candidates@.len()
                &&& forall|i: int|
                    0 <= i < dirs@.len() ==> (#[trigger] dirs@[i]).name@ == candidates@[i].name@ && dirs@[i].dir@
                        == outcome_path(outcomes@[i])
            },
            Err(Error::PathResolution { path, source: _ }) => exists|k: int|
                0 <= k < outcomes@.len() && (#[trigger] outcomes@[k]) is Err && (forall|j: int|
                    0 <= j < k ==> (#[trigger] outcomes@[j]) is Ok) && path@ == candidates@[k].dir@,
            Err(_) => false,
        },
{
    let n = outcomes.len();
    let ghost all = outcomes@;
    let mut rest = outcomes;
    let mut dirs: Vec<PackageDir> = Vec::new();
    let mut k: usize = 0;
    while k < n
        invariant
            n == all.len(),
            all == outcomes@,
            n <= candidates@.len(),
            n < candidates@.len() ==> n > 0 && all.last() is Err,
            0 <= k <= n,
            rest@ == all.subrange(k as int, n as int),
            forall|j: int| 0 <= j < k ==> (#[trigger] all[j]) is Ok,
            dirs@.len() == k,
            forall|i: int|
                0 <= i < k ==> (#[trigger] dirs@[i]).name@ == candidates@[i].name@ && dirs@[i].dir@
                    == outcome_path(all[i]),
        decreases n - k,
    {
        let outcome = rest.remove(0);
        assert(outcome == all[k as int]);
        assert(rest@ =~= all.subrange(k + 1, n as int));
        match outcome {
            Ok(dir) => {
                dirs.push(PackageDir { name: candidates[k].name.clone(), dir });
            },
            Err(source) => {
                let path = candidates[k].dir.clone();
                proof {
                    assert(outcomes@[k as int] is Err);
                    assert(forall|j: int| 0 <= j < k ==> (#[trigger] outcomes@[j]) is Ok);
                    assert(path@ == candidates@[k as int].dir@);
                }
                return Err(Error::PathResolution { path, source });
            },
        }
        k = k + 1;
    }
    Ok(dirs)
}

/// The candidate `k` is the first whose directory did not resolve: the outcome for it is a
/// failure, those before it resolved to canonical paths, and `path` is its directory.
pub open spec fn dir_failed_at(
    candidates: Seq<(Seq<char>, Seq<ComponentModel>)>,
    outcomes: Seq<Result<FsPath, std::io::Error>>,
    path: Seq<ComponentModel>,
) -> bool {
    exists|k: int|
        0 <= k < candidates.len() && k < outcomes.len() && (#[trigger] outcomes[k]) is Err && (forall|j: int|
            0 <= j < k ==> (#[trigger] outcomes[j]) is Ok && is_canonical(outcome_path(outcomes[j])))
            && path == candidates[k].1
}

/// Some answers of the file system for the files, all resolved to canonical paths, keep
/// at least one file.
pub open spec fn keeps_a_file(files: Seq<FsPath>, root: Seq<ComponentModel>, probes: Seq<FileProbe>) -> bool {
    &&& probes.len() == files.len()
    &&& all_resolved(probes)
    &&& kept_paths(root, probes, probes.len() as int).len() > 0
}

/// The workspace packages with the canonical directories of their manifests: each
/// candidate's manifest directory is resolved in turn, up to the first failure, and
/// `collect_package_dirs` decides. Whatever the file system answers, the packages are
/// the candidates in order with canonical directories, and a failure names the manifest
/// directory of the first candidate whose directory did not resolve.
pub fn package_dirs(metadata: &WorkspaceMetadata) -> (r: Result<Vec<PackageDir>, Error>)
    ensures
        match r {
            Ok(dirs) => {
                &&& names_candidates(dirs@, workspace_candidates(*metadata))
                &&& forall|i: int| 0 <= i < dirs@.len() ==> is_canonical((#[trigger] dirs@[i]).dir@)
            },
            Err(Error::PathResolution { path, source: _ }) => exists|outcomes: Seq<Result<FsPath, std::io::Error>>|
                #[trigger] dir_failed_at(workspace_candidates(*metadata), outcomes, path@),
            Err(_) => false,
        },
{
    let candidates = package_candidates_of(metadata);
    let n = candidates.len();
    let mut outcomes: Vec<Result<FsPath, std::io::Error>> = Vec::new();
    let mut k: usize = 0;
    while k < n
        invariant_except_break
            forall|j: int| 0 <= j < k ==> (#[trigger] outcomes@[j]) is Ok,
        invariant
            n == candidates@.len(),
            0 <= k <= n,
            outcomes@.len() == k,
            forall|j: int| 0 <= j < k ==> ((#[trigger] outcomes@[j]) is Ok ==> is_canonical(outcome_path(outcomes@[j]))),
        ensures
            outcomes@.len() <= n,
            outcomes@.len() < n ==> outcomes@.len() > 0 && outcomes@.last() is Err,
            forall|j: int| 0 <= j < outcomes@.len() ==> ((#[trigger] outcomes@[j]) is Ok ==> is_canonical(outcome_path(outcomes@[j]))),
        decreases n - k,
    {
        let outcome = canonicalize(&candidates[k].dir);
        let failed = match &outcome {
            Ok(_) => false,
            Err(_) => true,
        };
        let ghost pushed = outcome;
        outcomes.push(outcome);
        assert(outcomes@[k as int] == pushed);
        k = k + 1;
        if failed {
            break;
        }
    }
    let ghost all = outcomes@;
    let r = collect_package_dirs(&candidates, outcomes);
    proof {
        assert(name_dir_pairs(candidates@) == workspace_candidates(*metadata));
        if let Ok(dirs) = &r {
            assert forall|i: int| 0 <= i < dirs@.len() implies (#[trigger] dirs@[i]).name@ == workspace_candidates(*metadata)[i].0 by {
                assert(name_dir_pairs(candidates@)[i] == (candidates@[i].name@, candidates@[i].dir@));
            }
        }
        if let Err(Error::PathResolution { path, source: _ }) = &r {
            let k = choose|k: int| 0 <= k < all.len() && (#[trigger] all[k]) is Err && (forall|j: int|
                0 <= j < k ==> (#[trigger] all[j]) is Ok) && path@ == candidates@[k].dir@;
            assert(name_dir_pairs(candidates@)[k] == (candidates@[k].name@, candidates@[k].dir@));
            assert(dir_failed_at(workspace_candidates(*metadata), all, path@));
        }
    }
    r
}

impl Context {
    /// The canonical workspace root: the metadata's root resolved against the file system,
    /// an absolute path with no `.` or `..` in it.
    pub fn resolve_workspace_root(metadata: &WorkspaceMetadata) -> (r: Result<FsPath, Error>)
        ensures
            match r {
                Ok(root) => is_canonical(root@),
                Err(Error::PathResolution { path, source: _ }) => path@ == metadata.workspace_root@,
                Err(_) => false,
            },
    {
        match canonicalize(&metadata.workspace_root) {
            Ok(root) => Ok(root),
            Err(source) => Err(Error::PathResolution { path: metadata.workspace_root.clone(), source }),
        }
    }

    /// The settings of a run: the configuration in force, the files reported on, and,
    /// where the workspace has more than one member and some file is kept, the packages
    /// those files are attributed to; package directories are resolved only then. Also
    /// returns the warnings for the files left out.
    pub fn new(cli: &Cli, metadata: &WorkspaceMetadata, workspace_root: FsPath, loaded: ConfigLayer) -> (r: Result<(Context, Vec<FileWarning>), Error>)
        ensures
            match r {
                Ok((ctx, warnings)) => {
                    &&& ctx.workspace_root@ == workspace_root@
                    &&& ctx.level == level_spec(cli.level, loaded.level)
                    &&& ctx.clippy_args@ == clippy_args_spec(
                        cli.clippy_args@,
                        match loaded.clippy_args {
                            Some(a) => Some(a@),
                            None => None,
                        },
                    )
                    &&& no_repeats(paths_of(ctx.files@))
                    &&& forall|k: int|
                        0 <= k < ctx.files@.len() ==> starts_with((#[trigger] ctx.files@[k])@, workspace_root@)
                    &&& forall|k: int| 0 <= k < ctx.files@.len() ==> is_canonical((#[trigger] ctx.files@[k])@)
                    &&& ctx.files@.len() + warnings@.len() <= cli.files@.len()
                    &&& exists|probes: Seq<FileProbe>|
                        #[trigger] decided_by(cli.files@, workspace_root@, probes, ResolvedFiles { files: ctx.files, warnings })
                    &&& if metadata.workspace_members@.len() > 1 && ctx.files@.len() > 0 {
                        &&& strictly_ascending(ctx.workspace_packages@)
                        &&& exists|dirs: Seq<PackageDir>|
                            #[trigger] names_candidates(dirs, workspace_candidates(*metadata)) && (forall|i: int|
                                0 <= i < dirs.len() ==> is_canonical((#[trigger] dirs[i]).dir@)) && forall|name: Seq<char>|
                                names_of(ctx.workspace_packages@).contains(name) <==> reported(dirs, ctx.files@, name)
                    } else {
                        ctx.workspace_packages@.len() == 0
                    }
                },
                Err(Error::PathResolution { path, source: _ }) => (exists|probes: Seq<FileProbe>|
                    #[trigger] failed_at(cli.files@, workspace_root@, probes, path@)) || (metadata.workspace_members@.len() > 1
                    && (exists|probes: Seq<FileProbe>| #[trigger] keeps_a_file(cli.files@, workspace_root@, probes))
                    && exists|outcomes: Seq<Result<FsPath, std::io::Error>>|
                    #[trigger] dir_failed_at(workspace_candidates(*metadata), outcomes, path@)),
                Err(_) => false,
            },
            cli.files@.len() == 0 ==> r is Ok,
    {
        let config = Config::new(cli, loaded);
        let resolved = match resolve_files(&cli.files, &workspace_root) {
            Ok(resolved) => resolved,
            Err(e) => return Err(e),
        };
        let ghost resolved_ghost = resolved;
        let files = resolved.files;
        let workspace_packages = if metadata.workspace_members.len() > 1 && files.len() > 0 {
            proof {
                let probes = choose|probes: Seq<FileProbe>| #[trigger] decided_by(cli.files@, workspace_root@, probes, resolved_ghost);
                assert(keeps_a_file(cli.files@, workspace_root@, probes));
            }
            let dirs = match package_dirs(metadata) {
                Ok(dirs) => dirs,
                Err(e) => return Err(e),
            };
            let names = packages_for_files(&files, &dirs);
            proof {
                assert(names_candidates(dirs@, workspace_candidates(*metadata)));
                assert(forall|i: int| 0 <= i < dirs@.len() ==> is_canonical((#[trigger] dirs@[i]).dir@));
                assert(resolved_ghost.files@.len() + resolved_ghost.warnings@.len() <= cli.files@.len());
            }
            names
        } else {
            Vec::new()
        };
        let ctx = Context { workspace_root, workspace_packages, level: config.level, files, clippy_args: config.clippy_args };
        proof {
            let probes = choose|probes: Seq<FileProbe>| #[trigger] decided_by(cli.files@, ctx.workspace_root@, probes, resolved_ghost);
            assert(decided_by(cli.files@, ctx.workspace_root@, probes, ResolvedFiles { files: ctx.files, warnings: resolved.warnings }));
        }
        Ok((ctx, resolved.warnings))
    }
}

} // verus!
