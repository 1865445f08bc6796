use clipped::clippy::{clippy_command, ClippyCommand};
use clipped::context::Context;
use clipped::diagnostics::{ClippyMessage, CompilerDiagnostic, DiagnosticRun, DiagnosticSeverity, Level};
use clipped::error::Error;
use clipped::paths::FsPath;

fn context(level: Level, packages: &[&str], clippy_args: &[&str]) -> Context {
    Context {
        workspace_root: FsPath::empty(),
        workspace_packages: packages.iter().map(|s| s.to_string()).collect(),
        level,
        files: Vec::new(),
        clippy_args: clippy_args.iter().map(|s| s.to_string()).collect(),
    }
}

fn diagnostic(level: DiagnosticSeverity, rendered: Option<&str>) -> ClippyMessage {
    ClippyMessage::CompilerMessage(CompilerDiagnostic {
        level,
        rendered: rendered.map(|s| s.to_string()),
        span_files: Vec::new(),
    })
}

#[test]
fn severities_map_to_levels() {
    assert_eq!(Level::from(DiagnosticSeverity::Ice), Level::Error);
    assert_eq!(Level::from(DiagnosticSeverity::Error), Level::Error);
    assert_eq!(Level::from(DiagnosticSeverity::Warning), Level::Warning);
    assert_eq!(Level::from(DiagnosticSeverity::FailureNote), Level::Warning);
    assert_eq!(Level::from(DiagnosticSeverity::Note), Level::Note);
    assert_eq!(Level::from(DiagnosticSeverity::Help), Level::Help);
}

#[test]
fn levels_are_ordered() {
    assert!(Level::Note < Level::Help && Level::Help < Level::Warning && Level::Warning < Level::Error);
    assert!(Level::Error.is_at_least(Level::Warning));
    assert!(Level::Warning.is_at_least(Level::Warning));
    assert!(!Level::Help.is_at_least(Level::Warning));
    assert_eq!(Level::default(), Level::Warning);
}

#[test]
fn warning_is_reported_without_files() {
    let ctx = context(Level::Warning, &[], &[]);
    let mut run = DiagnosticRun::new(&ctx);
    let out = run.process(&diagnostic(DiagnosticSeverity::Warning, Some("warning: unused variable: `x`")));
    assert_eq!(out.unwrap().as_deref(), Some("warning: unused variable: `x`"));
    assert!(!run.finish(true, Some(0)).unwrap());
}

#[test]
fn warning_below_error_level_is_skipped() {
    let ctx = context(Level::Error, &[], &[]);
    let mut run = DiagnosticRun::new(&ctx);
    let out = run.process(&diagnostic(DiagnosticSeverity::Warning, Some("warning: unused variable: `x`")));
    assert_eq!(out.unwrap(), None);
    assert!(run.finish(true, Some(0)).unwrap());
}

#[test]
fn diagnostic_without_rendering_is_skipped() {
    let ctx = context(Level::Note, &[], &[]);
    let mut run = DiagnosticRun::new(&ctx);
    assert_eq!(run.process(&diagnostic(DiagnosticSeverity::Error, None)).unwrap(), None);
    assert_eq!(run.process(&ClippyMessage::Other).unwrap(), None);
    assert!(run.finish(true, Some(0)).unwrap());
}

#[test]
fn failed_clippy_is_an_error_with_its_code() {
    let ctx = context(Level::Warning, &[], &[]);
    let run = DiagnosticRun::new(&ctx);
    assert!(matches!(run.finish(false, Some(101)), Err(Error::ClippyFailed { exit_code: 101 })));
    assert!(matches!(run.finish(false, None), Err(Error::ClippyFailed { exit_code: -1 })));
}

#[test]
fn clippy_command_starts_with_json_messages() {
    let cmd = ClippyCommand::new("cargo".to_string());
    assert_eq!(cmd.command_line(), "cargo clippy --message-format=json-diagnostic-rendered-ansi");
}

#[test]
fn clippy_command_builder_appends_in_order() {
    let cmd = ClippyCommand::new("cargo".to_string())
        .args(&vec!["--".to_string(), "-W".to_string()])
        .arg("clippy::all".to_string());
    assert_eq!(cmd.command_line(), "cargo clippy --message-format=json-diagnostic-rendered-ansi -- -W clippy::all");
}

#[test]
fn clippy_command_names_the_packages() {
    let ctx = context(Level::Warning, &["a", "b"], &[]);
    let line = clippy_command("cargo".to_string(), &ctx).command_line();
    assert!(line.ends_with("-p a -p b"), "{line}");
}

#[test]
fn clippy_command_puts_packages_before_the_separator() {
    let ctx = context(Level::Warning, &["b"], &["--", "-A", "clippy::needless_return"]);
    let line = clippy_command("cargo".to_string(), &ctx).command_line();
    assert_eq!(
        line,
        "cargo clippy --message-format=json-diagnostic-rendered-ansi -p b -- -A clippy::needless_return"
    );
    assert!(!line.contains("-p a"));
}

#[test]
fn clippy_command_for_the_readme_usage() {
    let ctx = context(Level::Warning, &["a", "b"], &["--", "-W", "clippy::all"]);
    let cmd = clippy_command("cargo".to_string(), &ctx);
    assert_eq!(
        cmd.args,
        vec![
            "clippy",
            "--message-format=json-diagnostic-rendered-ansi",
            "-p",
            "a",
            "-p",
            "b",
            "--",
            "-W",
            "clippy::all"
        ]
    );
}

#[test]
fn clippy_command_without_separator_appends_packages() {
    let ctx = context(Level::Warning, &["a"], &["--all-targets", "--", "-D", "warnings", "--"]);
    let line = clippy_command("cargo".to_string(), &ctx).command_line();
    assert_eq!(
        line,
        "cargo clippy --message-format=json-diagnostic-rendered-ansi --all-targets -p a -- -D warnings --"
    );
    let ctx = context(Level::Warning, &["a"], &["--all-targets"]);
    let line = clippy_command("cargo".to_string(), &ctx).command_line();
    assert!(line.ends_with("--all-targets -p a"), "{line}");
}

#[test]
fn args_is_arg_one_at_a_time() {
    let added = vec!["--".to_string(), "-W".to_string(), "clippy::all".to_string()];
    let many = ClippyCommand::new("cargo".to_string()).args(&added);
    let mut one = ClippyCommand::new("cargo".to_string());
    for a in &added {
        one = one.arg(a.clone());
    }
    assert_eq!(many.program, one.program);
    assert_eq!(many.args, one.args);
    assert_eq!(many.command_line(), "cargo clippy --message-format=json-diagnostic-rendered-ansi -- -W clippy::all");
    let none = ClippyCommand::new("cargo".to_string()).args(&Vec::new());
    assert_eq!(none.args, ClippyCommand::new("cargo".to_string()).args);
}
