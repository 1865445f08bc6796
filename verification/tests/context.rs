use clipped::cli::Cli;
use clipped::config::ConfigLayer;
use clipped::context::{
    collect_files, package_dirs, resolve_files, Context, FileProbe, FileWarning, PackageMetadata,
    WorkspaceMetadata,
};
use clipped::diagnostics::{ClippyMessage, CompilerDiagnostic, DiagnosticRun, DiagnosticSeverity, Level};
use clipped::error::Error;
use clipped::matcher::FileMatcher;
use clipped::paths::{FsPath, PathComponent};

fn path(s: &str) -> FsPath {
    let mut components = Vec::new();
    if s.starts_with('/') {
        components.push(PathComponent::RootDir);
    }
    for (i, seg) in s.split('/').enumerate() {
        match seg {
            "" => {}
            "." if i == 0 => components.push(PathComponent::CurDir),
            "." => {}
            ".." => components.push(PathComponent::ParentDir),
            name => components.push(PathComponent::Normal(name.to_string())),
        }
    }
    FsPath { components }
}

fn metadata(members: &[&str], packages: &[(&str, &str, &str)]) -> WorkspaceMetadata {
    WorkspaceMetadata {
        workspace_root: path("."),
        workspace_members: members.iter().map(|s| s.to_string()).collect(),
        packages: packages
            .iter()
            .map(|(id, name, manifest)| PackageMetadata {
                id: id.to_string(),
                name: name.to_string(),
                manifest_path: path(manifest),
            })
            .collect(),
    }
}

fn cli(files: &[&str], level: Option<Level>) -> Cli {
    Cli { config_path: None, level, verbose: false, files: files.iter().map(|f| path(f)).collect(), clippy_args: Vec::new() }
}

fn root() -> FsPath {
    Context::resolve_workspace_root(&metadata(&[], &[])).unwrap()
}

fn warning_at(files: &[&str]) -> ClippyMessage {
    ClippyMessage::CompilerMessage(CompilerDiagnostic {
        level: DiagnosticSeverity::Warning,
        rendered: Some("warning: unused variable: `x`".to_string()),
        span_files: files.iter().map(|f| path(f)).collect(),
    })
}

#[test]
fn workspace_root_resolves_to_an_absolute_path() {
    let r = root();
    assert!(matches!(r.components.first(), Some(PathComponent::RootDir)));
    assert!(r.components.iter().all(|c| matches!(c, PathComponent::RootDir | PathComponent::Normal(_))));
    assert!(r.components.len() > 1);
}

#[test]
fn missing_workspace_root_is_an_error() {
    let mut m = metadata(&[], &[]);
    m.workspace_root = path("no/such/dir");
    match Context::resolve_workspace_root(&m) {
        Err(Error::PathResolution { path: p, .. }) => assert!(p.same_as(&path("no/such/dir"))),
        other => panic!("unexpected: {other:?}"),
    }
}

#[test]
fn files_resolve_under_the_root_once_each() {
    let r = root();
    let resolved = resolve_files(&vec![path("src/lib.rs"), path("./src/lib.rs"), path("src/paths.rs")], &r).unwrap();
    assert_eq!(resolved.files.len(), 2);
    assert!(resolved.files[0].same_as(&r.join(&path("src/lib.rs"))));
    assert!(resolved.files[1].same_as(&r.join(&path("src/paths.rs"))));
    assert!(resolved.warnings.is_empty());
}

#[test]
fn directory_is_left_out_with_a_warning() {
    let r = root();
    let resolved = resolve_files(&vec![path("src")], &r).unwrap();
    assert!(resolved.files.is_empty());
    assert!(matches!(&resolved.warnings[..], [FileWarning::NotARegularFile { .. }]));
}

#[test]
fn file_outside_the_root_is_left_out_with_a_warning() {
    let r = root();
    let resolved = resolve_files(&vec![path(".."), path("/")], &r).unwrap();
    assert!(resolved.files.is_empty());
    match &resolved.warnings[..] {
        [FileWarning::OutsideWorkspace { file: f1, resolved: Some(shown) }, FileWarning::OutsideWorkspace { file: f2, resolved: None }] => {
            assert!(f1.same_as(&path("..")));
            assert!(shown.same_as(&r.parent().unwrap()));
            assert!(f2.same_as(&path("/")));
        }
        other => panic!("unexpected: {other:?}"),
    }
}

#[test]
fn missing_file_is_an_error() {
    let r = root();
    match resolve_files(&vec![path("src/lib.rs"), path("src/invalid.rs")], &r) {
        Err(Error::PathResolution { path: p, .. }) => assert!(p.same_as(&r.join(&path("src/invalid.rs")))),
        other => panic!("unexpected: {other:?}"),
    }
}

#[test]
fn collect_files_decides_from_probes() {
    let r = path("/ws");
    let files = vec![path("a.rs"), path("b"), path("../c.rs"), path("d.rs")];
    let probes = vec![
        FileProbe { canonical: Ok(path("/ws/a.rs")), is_file: true },
        FileProbe { canonical: Ok(path("/ws/b")), is_file: false },
        FileProbe { canonical: Ok(path("/c.rs")), is_file: true },
        FileProbe { canonical: Ok(path("/ws/a.rs")), is_file: true },
    ];
    let resolved = collect_files(&files, &r, probes).unwrap();
    assert_eq!(resolved.files.len(), 1);
    assert!(resolved.files[0].same_as(&path("/ws/a.rs")));
    assert_eq!(resolved.warnings.len(), 2);
    assert!(matches!(&resolved.warnings[0], FileWarning::NotARegularFile { path: p } if p.same_as(&path("/ws/b"))));
    assert!(matches!(&resolved.warnings[1], FileWarning::OutsideWorkspace { resolved: Some(p), .. } if p.same_as(&path("/c.rs"))));
}

#[test]
fn collect_files_fails_on_the_first_unresolved_file() {
    let r = path("/ws");
    let files = vec![path("a.rs"), path("x.rs"), path("y.rs")];
    let probes = vec![
        FileProbe { canonical: Ok(path("/ws/a.rs")), is_file: true },
        FileProbe { canonical: Err(std::io::Error::other("missing")), is_file: false },
        FileProbe { canonical: Err(std::io::Error::other("missing")), is_file: false },
    ];
    match collect_files(&files, &r, probes) {
        Err(Error::PathResolution { path: p, .. }) => assert!(p.same_as(&path("/ws/x.rs"))),
        other => panic!("unexpected: {other:?}"),
    }
}

#[test]
fn outside_file_that_resolves_to_its_join_shows_no_resolution() {
    let r = path("/ws");
    let files = vec![path("/etc/hosts")];
    let probes = vec![FileProbe { canonical: Ok(path("/etc/hosts")), is_file: true }];
    let resolved = collect_files(&files, &r, probes).unwrap();
    assert!(matches!(&resolved.warnings[..], [FileWarning::OutsideWorkspace { resolved: None, .. }]));
}

#[test]
fn context_resolves_packages_of_the_files() {
    let m = metadata(
        &["a-id", "b-id"],
        &[("a-id", "a", "src/Cargo.toml"), ("b-id", "b", "tests/Cargo.toml"), ("c-id", "c", "Cargo.toml")],
    );
    let r = Context::resolve_workspace_root(&m).unwrap();
    let (ctx, warnings) = Context::new(&cli(&["src/lib.rs"], None), &m, r, ConfigLayer { level: None, clippy_args: None }).unwrap();
    assert!(warnings.is_empty());
    assert_eq!(ctx.workspace_packages, vec!["a".to_string()]);
    assert_eq!(ctx.level, Level::Warning);
}

#[test]
fn context_names_no_package_for_a_single_member() {
    let m = metadata(&["a-id"], &[("a-id", "a", "Cargo.toml")]);
    let r = Context::resolve_workspace_root(&m).unwrap();
    let (ctx, _) = Context::new(&cli(&["src/lib.rs"], Some(Level::Error)), &m, r, ConfigLayer { level: None, clippy_args: None }).unwrap();
    assert!(ctx.workspace_packages.is_empty());
    assert_eq!(ctx.level, Level::Error);
    assert_eq!(ctx.files.len(), 1);
}

#[test]
fn package_dirs_keep_members_in_order() {
    let m = metadata(&["b-id", "a-id"], &[("a-id", "a", "src/Cargo.toml"), ("x-id", "x", "Cargo.toml"), ("b-id", "b", "tests/Cargo.toml")]);
    let dirs = package_dirs(&m).unwrap();
    let names: Vec<&str> = dirs.iter().map(|d| d.name.as_str()).collect();
    assert_eq!(names, vec!["a", "b"]);
}

#[test]
fn record_keeps_the_given_resolution() {
    let files = vec![path("/ws/src/lib.rs")];
    let r = path("/ws");
    let mut m = FileMatcher::new(&files, &r);
    assert!(m.record(&path("src/lib.rs"), path("/ws/src/lib.rs")));
    assert!(!m.record(&path("src/other.rs"), path("/ws/src/other.rs")));
    // answered from the kept resolution, without the file system
    assert!(m.matches(&path("src/lib.rs")).unwrap());
    assert!(!m.matches(&path("src/other.rs")).unwrap());
}

#[test]
fn no_files_no_failure() {
    let m = metadata(&["a-id", "b-id"], &[("a-id", "a", "no/such/Cargo.toml"), ("b-id", "b", "x/Cargo.toml")]);
    let r = Context::resolve_workspace_root(&m).unwrap();
    let (ctx, warnings) = Context::new(&cli(&[], None), &m, r, ConfigLayer { level: None, clippy_args: None }).unwrap();
    assert!(ctx.files.is_empty() && ctx.workspace_packages.is_empty() && warnings.is_empty());
}

#[test]
fn first_failing_package_directory_is_named() {
    let m = metadata(&["a-id", "b-id"], &[("a-id", "a", "src/Cargo.toml"), ("b-id", "b", "no/such/Cargo.toml")]);
    match package_dirs(&m) {
        Err(Error::PathResolution { path: p, .. }) => assert!(p.same_as(&path("no/such"))),
        other => panic!("unexpected: {other:?}"),
    }
}

#[test]
fn matcher_answers_for_the_files_only() {
    let r = root();
    let files = vec![r.join(&path("src/lib.rs"))];
    let mut m = FileMatcher::new(&files, &r);
    assert!(m.matches(&path("src/lib.rs")).unwrap());
    assert!(m.matches(&path("./src/lib.rs")).unwrap());
    assert!(!m.matches(&path("src/paths.rs")).unwrap());
    // a second answer comes from the kept resolution
    assert!(m.matches(&path("src/lib.rs")).unwrap());
    assert!(matches!(m.matches(&path("src/invalid.rs")), Err(Error::PathResolution { .. })));
}

#[test]
fn run_reports_only_diagnostics_on_the_files() {
    let m = metadata(&["a-id"], &[("a-id", "a", "Cargo.toml")]);
    let r = Context::resolve_workspace_root(&m).unwrap();
    let (ctx, _) = Context::new(&cli(&["src/paths.rs"], None), &m, r, ConfigLayer { level: None, clippy_args: None }).unwrap();
    let mut run = DiagnosticRun::new(&ctx);
    assert_eq!(run.process(&warning_at(&["src/lib.rs"])).unwrap(), None);
    assert!(run.finish(true, Some(0)).unwrap());
    let out = run.process(&warning_at(&["src/lib.rs", "src/paths.rs"])).unwrap();
    assert_eq!(out.as_deref(), Some("warning: unused variable: `x`"));
    assert!(!run.finish(true, Some(0)).unwrap());
}

#[test]
fn run_fails_when_a_span_does_not_resolve() {
    let m = metadata(&["a-id"], &[("a-id", "a", "Cargo.toml")]);
    let r = Context::resolve_workspace_root(&m).unwrap();
    let (ctx, _) = Context::new(&cli(&["src/lib.rs"], None), &m, r, ConfigLayer { level: None, clippy_args: None }).unwrap();
    let mut run = DiagnosticRun::new(&ctx);
    assert!(matches!(run.process(&warning_at(&["src/missing.rs"])), Err(Error::PathResolution { .. })));
}

#[test]
fn kept_files_depend_on_the_resolved_set() {
    let r = path("/ws");
    let files1 = vec![path("a.rs"), path("b.rs"), path("./a.rs")];
    let probes1 = vec![
        FileProbe { canonical: Ok(path("/ws/a.rs")), is_file: true },
        FileProbe { canonical: Ok(path("/ws/b.rs")), is_file: true },
        FileProbe { canonical: Ok(path("/ws/a.rs")), is_file: true },
    ];
    let files2 = vec![path("b.rs"), path("src/../a.rs")];
    let probes2 = vec![
        FileProbe { canonical: Ok(path("/ws/b.rs")), is_file: true },
        FileProbe { canonical: Ok(path("/ws/a.rs")), is_file: true },
    ];
    let mut kept1 = collect_files(&files1, &r, probes1).unwrap().files;
    let mut kept2 = collect_files(&files2, &r, probes2).unwrap().files;
    assert_eq!(kept1.len(), 2);
    assert_eq!(kept2.len(), 2);
    kept1.sort_by(|a, b| format!("{:?}", a).cmp(&format!("{:?}", b)));
    kept2.sort_by(|a, b| format!("{:?}", a).cmp(&format!("{:?}", b)));
    assert_eq!(format!("{:?}", kept1), format!("{:?}", kept2));
}

#[test]
fn packages_are_not_resolved_when_no_file_is_kept() {
    let m = metadata(&["a-id", "b-id"], &[("a-id", "a", "no/such/Cargo.toml"), ("b-id", "b", "none/either/Cargo.toml")]);
    let r = root();
    let (ctx, warnings) =
        Context::new(&cli(&["/"], None), &m, r, ConfigLayer { level: None, clippy_args: None }).unwrap();
    assert!(ctx.files.is_empty());
    assert!(ctx.workspace_packages.is_empty());
    assert_eq!(warnings.len(), 1);
}
