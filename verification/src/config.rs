use vstd::prelude::*;
use vstd::utf8::encode_utf8;

use crate::cli::Cli;
use crate::diagnostics::Level;
use crate::paths::{join_spec, ComponentModel, FsPath, PathComponent};

verus! {

/// The settings that the configuration file and the `CLIPPED_` environment variables
/// give together, each where one of them gives it.
#[derive(Debug)]
pub struct ConfigLayer {
    pub level: Option<Level>,
    pub clippy_args: Option<Vec<String>>,
}

/// The settings in force.
#[derive(Debug)]
pub struct Config {
    pub level: Level,
    pub clippy_args: Vec<String>,
}

/// The name of the configuration file in the workspace root.
pub open spec fn config_file_name() -> Seq<u8> {
    encode_utf8(".clipped.toml"@)
}

/// The configuration file: the one the command line names, else `.clipped.toml` in the
/// workspace root.
pub open spec fn config_path_spec(cli_path: Option<Seq<ComponentModel>>, workspace_root: Seq<ComponentModel>) -> Seq<ComponentModel> {
    match cli_path {
        Some(p) => p,
        None => join_spec(workspace_root, seq![ComponentModel::Normal(config_file_name())]),
    }
}

/// The level in force: the command line's, else the loaded one, else `Warning`.
pub open spec fn level_spec(cli_level: Option<Level>, loaded: Option<Level>) -> Level {
    match cli_level {
        Some(l) => l,
        None => match loaded {
            Some(l) => l,
            None => Level::Warning,
        },
    }
}

/// The arguments in force: the command line's where it gives some, else the loaded ones,
/// else none.
pub open spec fn clippy_args_spec(cli_args: Seq<String>, loaded: Option<Seq<String>>) -> Seq<String> {
    if cli_args.len() > 0 {
        cli_args
    } else {
        match loaded {
            Some(a) => a,
            None => Seq::empty(),
        }
    }
}

/// A level given on the command line is the level in force, whatever the configuration
/// file and the environment give; where the command line gives none, the loaded level is
/// in force, and where neither gives one, `Warning`.
pub proof fn law_command_line_level_wins(cli_level: Option<Level>, loaded: Option<Level>)
    ensures
        cli_level matches Some(l) ==> level_spec(cli_level, loaded) == l,
        cli_level is None ==> (loaded matches Some(m) ==> level_spec(cli_level, loaded) == m),
        cli_level is None && loaded is None ==> level_spec(cli_level, loaded) == Level::Warning,
{
}

/// Clippy arguments given on the command line are the arguments in force, whatever the
/// configuration file and the environment give; where the command line gives none, the
/// loaded ones are in force, and where neither gives any, there are none.
pub proof fn law_command_line_clippy_args_win(cli_args: Seq<String>, loaded: Option<Seq<String>>)
    ensures
        cli_args.len() > 0 ==> clippy_args_spec(cli_args, loaded) == cli_args,
        cli_args.len() == 0 ==> (loaded matches Some(a) ==> clippy_args_spec(cli_args, loaded) == a),
        cli_args.len() == 0 && loaded is None ==> clippy_args_spec(cli_args, loaded).len() == 0,
{
}

/// A copy of a list of strings.
pub fn copy_strings(v: &Vec<String>) -> (r: Vec<String>)
    ensures
        r@ == v@,
{
    let mut r: Vec<String> = Vec::new();
    for i in 0..v.len()
        invariant
            r@ == v@.subrange(0, i as int),
    {
        r.push(v[i].clone());
        assert(r@ =~= v@.subrange(0, i + 1));
    }
    assert(r@ =~= v@);
    r
}

impl Config {
    /// Where the configuration file is looked for.
    pub fn config_path(cli: &Cli, workspace_root: &FsPath) -> (path: FsPath)
        ensures
            path@ == config_path_spec(
                match cli.config_path {
                    Some(p) => Some(p@),
                    None => None,
                },
                workspace_root@,
            ),
    {
        match &cli.config_path {
            Some(p) => p.clone(),
            None => {
                let mut components: Vec<PathComponent> = Vec::new();
                components.push(PathComponent::Normal(".clipped.toml".to_owned()));
                let file = FsPath { components };
                assert(file@ =~= seq![ComponentModel::Normal(config_file_name())]);
                workspace_root.join(&file)
            },
        }
    }

    /// The settings in force: the command line overrides what the configuration file and
    /// the environment give, and what none gives takes its default.
    pub fn new(cli: &Cli, loaded: ConfigLayer) -> (config: Config)
        ensures
            config.level == level_spec(cli.level, loaded.level),
            config.clippy_args@ == clippy_args_spec(
                cli.clippy_args@,
                match loaded.clippy_args {
                    Some(a) => Some(a@),
                    None => None,
                },
            ),
            cli.level matches Some(l) ==> config.level == l,
            cli.level is None ==> (loaded.level matches Some(m) ==> config.level == m),
            cli.level is None && loaded.level is None ==> config.level == Level::Warning,
            cli.clippy_args@.len() > 0 ==> config.clippy_args@ == cli.clippy_args@,
            cli.clippy_args@.len() == 0 ==> (loaded.clippy_args matches Some(a) ==> config.clippy_args@ == a@),
            cli.clippy_args@.len() == 0 && loaded.clippy_args is None ==> config.clippy_args@.len() == 0,
    {
        let level = match cli.level {
            Some(l) => l,
            None => match loaded.level {
                Some(l) => l,
                None => Level::default(),
            },
        };
        let clippy_args = if cli.clippy_args.len() > 0 {
            copy_strings(&cli.clippy_args)
        } else {
            match loaded.clippy_args {
                Some(a) => a,
                None => Vec::new(),
            }
        };
        Config { level, clippy_args }
    }
}

} // verus!
