use clipped::cli::Cli;
use clipped::config::{Config, ConfigLayer};
use clipped::diagnostics::Level;
use clipped::paths::{FsPath, PathComponent};

fn path(s: &str) -> FsPath {
    let mut components = Vec::new();
    if s.starts_with('/') {
        components.push(PathComponent::RootDir);
    }
    for seg in s.split('/') {
        if !seg.is_empty() {
            components.push(PathComponent::Normal(seg.to_string()));
        }
    }
    FsPath { components }
}

fn cli(level: Option<Level>, clippy_args: &[&str]) -> Cli {
    Cli {
        config_path: None,
        level,
        verbose: false,
        files: Vec::new(),
        clippy_args: clippy_args.iter().map(|s| s.to_string()).collect(),
    }
}

fn strings(v: &[&str]) -> Vec<String> {
    v.iter().map(|s| s.to_string()).collect()
}

#[test]
fn defaults_when_nothing_is_given() {
    let config = Config::new(&cli(None, &[]), ConfigLayer { level: None, clippy_args: None });
    assert_eq!(config.level, Level::Warning);
    assert!(config.clippy_args.is_empty());
}

#[test]
fn loaded_level_applies_without_command_line_level() {
    // the file of the fixture sets `level = "error"`, the environment nothing
    let config = Config::new(&cli(None, &[]), ConfigLayer { level: Some(Level::Error), clippy_args: None });
    assert_eq!(config.level, Level::Error);
}

#[test]
fn command_line_level_overrides_loaded_level() {
    let config = Config::new(
        &cli(Some(Level::Warning), &[]),
        ConfigLayer { level: Some(Level::Error), clippy_args: None },
    );
    assert_eq!(config.level, Level::Warning);
}

#[test]
fn loaded_clippy_args_apply_without_command_line_args() {
    let loaded = strings(&["--", "-A", "clippy::needless_return"]);
    let config = Config::new(&cli(None, &[]), ConfigLayer { level: None, clippy_args: Some(loaded.clone()) });
    assert_eq!(config.clippy_args, loaded);
}

#[test]
fn command_line_clippy_args_override_loaded_ones() {
    let config = Config::new(
        &cli(None, &["--", "--", "-A", "clippy::needless_return"]),
        ConfigLayer { level: None, clippy_args: Some(strings(&["-W", "clippy::pedantic"])) },
    );
    assert_eq!(config.clippy_args, strings(&["--", "--", "-A", "clippy::needless_return"]));
}

#[test]
fn config_file_defaults_to_workspace_root() {
    let p = Config::config_path(&cli(None, &[]), &path("/ws"));
    assert!(p.same_as(&path("/ws/.clipped.toml")));
}

#[test]
fn config_file_from_command_line() {
    let mut c = cli(None, &[]);
    c.config_path = Some(path("custom_config.toml"));
    let p = Config::config_path(&c, &path("/ws"));
    assert!(p.same_as(&path("custom_config.toml")));
}
