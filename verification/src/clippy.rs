use vstd::prelude::*;
use vstd::string::StringExecFns;

use crate::context::Context;

verus! {

/// The text of a list of strings.
pub open spec fn texts(strings: Seq<String>) -> Seq<Seq<char>> {
    strings.map_values(|s: String| s@)
}

/// The arguments that every `cargo clippy` run starts with.
pub open spec fn base_args() -> Seq<Seq<char>> {
    seq!["clippy"@, "--message-format=json-diagnostic-rendered-ansi"@]
}

/// `-p NAME` for each package, in order.
pub open spec fn package_flags(packages: Seq<Seq<char>>) -> Seq<Seq<char>>
    decreases packages.len(),
{
    if packages.len() == 0 {
        Seq::empty()
    } else {
        package_flags(packages.drop_last()) + seq!["-p"@, packages.last()]
    }
}

/// The program followed by each argument after a space.
pub open spec fn command_line_spec(program: Seq<char>, args: Seq<Seq<char>>) -> Seq<char>
    decreases args.len(),
{
    if args.len() == 0 {
        program
    } else {
        command_line_spec(program, args.drop_last()) + " "@ + args.last()
    }
}

/// A `cargo clippy` invocation: the program and its arguments.
#[derive(Debug)]
pub struct ClippyCommand {
    pub program: String,
    pub args: Vec<String>,
}

impl ClippyCommand {
    /// `program clippy --message-format=json-diagnostic-rendered-ansi`.
    pub fn new(program: String) -> (cmd: ClippyCommand)
        ensures
            cmd.program == program,
            texts(cmd.args@) == base_args(),
    {
        let mut args: Vec<String> = Vec::new();
        args.push("clippy".to_owned());
        args.push("--message-format=json-diagnostic-rendered-ansi".to_owned());
        let cmd = ClippyCommand { program, args };
        assert(texts(cmd.args@) =~= base_args());
        cmd
    }

    /// The command with one more argument.
    pub fn arg(self, arg: String) -> (cmd: ClippyCommand)
        ensures
            cmd.program == self.program,
            cmd.args@ == self.args@.push(arg),
    {
        let mut cmd = self;
        cmd.args.push(arg);
        cmd
    }

    /// The command with more arguments, in order.
    pub fn args(self, args: &Vec<String>) -> (cmd: ClippyCommand)
        ensures
            cmd.program == self.program,
            cmd.args@ == self.args@ + args@,
    {
        let mut cmd = self;
        let ghost start = cmd.args@;
        for i in 0..args.len()
            invariant
                cmd.program == self.program,
                cmd.args@ == start + args@.subrange(0, i as int),
        {
            cmd.args.push(args[i].clone());
            assert(cmd.args@ =~= start + args@.subrange(0, i + 1));
        }
        assert(args@.subrange(0, args@.len() as int) =~= args@);
        cmd
    }

    /// The command line as it is shown: the program and each argument, separated by
    /// spaces.
    pub fn command_line(&self) -> (s: String)
        ensures
            s@ == command_line_spec(self.program@, texts(self.args@)),
    {
        let mut s = self.program.clone();
        for i in 0..self.args.len()
            invariant
                s@ == command_line_spec(self.program@, texts(self.args@.subrange(0, i as int))),
        {
            s.append(" ");
            s.append(self.args[i].as_str());
            proof {
                let sub = texts(self.args@.subrange(0, i + 1));
                assert(sub.drop_last() =~= texts(self.args@.subrange(0, i as int)));
                assert(sub.last() == self.args@[i as int]@);
            }
        }
        assert(self.args@.subrange(0, self.args@.len() as int) =~= self.args@);
        s
    }
}

/// The arguments after `arg` has been called once for each of `added`, in order.
pub open spec fn one_at_a_time(start: Seq<String>, added: Seq<String>) -> Seq<String>
    decreases added.len(),
{
    if added.len() == 0 {
        start
    } else {
        one_at_a_time(start, added.drop_last()).push(added.last())
    }
}

/// Adding several arguments with `args` is adding them one at a time with `arg`: both give
/// the arguments before, followed by the added ones in order (and nothing changes where
/// none are added).
pub proof fn law_args_is_repeated_arg(start: Seq<String>, added: Seq<String>)
    ensures
        one_at_a_time(start, added) == start + added,
    decreases added.len(),
{
    if added.len() > 0 {
        law_args_is_repeated_arg(start, added.drop_last());
        assert(start + added =~= (start + added.drop_last()).push(added.last()));
    } else {
        assert(start + added =~= start);
    }
}

/// `s` is where the first `--` of the arguments stands, or their number where there is none.
pub open spec fn first_separator(args: Seq<Seq<char>>, s: int) -> bool {
    &&& 0 <= s <= args.len()
    &&& s < args.len() ==> args[s] == "--"@
    &&& forall|j: int| 0 <= j < s ==> #[trigger] args[j] != "--"@
}

/// The `cargo clippy` run for a context: the given program with the base arguments, then
/// the configured arguments, with `-p NAME` for each workspace package the files belong
/// to placed before the first `--` of the configured arguments, so that cargo and not
/// clippy-driver receives the package selection.
pub fn clippy_command(program: String, ctx: &Context) -> (cmd: ClippyCommand)
    ensures
        cmd.program == program,
        exists|s: int|
            #[trigger] first_separator(texts(ctx.clippy_args@), s) && texts(cmd.args@) == base_args()
                + texts(ctx.clippy_args@).take(s) + package_flags(texts(ctx.workspace_packages@))
                + texts(ctx.clippy_args@).skip(s),
{
    let ghost ca = texts(ctx.clippy_args@);
    let separator = "--".to_owned();
    let n = ctx.clippy_args.len();
    let mut s: usize = 0;
    while s < n && ctx.clippy_args[s] != separator
        invariant
            n == ctx.clippy_args@.len(),
            separator@ == "--"@,
            ca == texts(ctx.clippy_args@),
            0 <= s <= n,
            forall|j: int| 0 <= j < s ==> #[trigger] ca[j] != "--"@,
        decreases n - s,
    {
        s = s + 1;
    }
    assert(first_separator(ca, s as int));
    let mut cmd = ClippyCommand::new(program);
    for i in 0..s
        invariant
            s <= n,
            n == ctx.clippy_args@.len(),
            ca == texts(ctx.clippy_args@),
            cmd.program == program,
            texts(cmd.args@) == base_args() + ca.take(i as int),
    {
        let ghost before = texts(cmd.args@);
        cmd = cmd.arg(ctx.clippy_args[i].clone());
        assert(texts(cmd.args@) =~= before.push(ca[i as int]));
        assert(ca.take(i + 1) =~= ca.take(i as int).push(ca[i as int]));
    }
    let ghost start = texts(cmd.args@);
    let np = ctx.workspace_packages.len();
    for i in 0..np
        invariant
            np == ctx.workspace_packages@.len(),
            cmd.program == program,
            texts(cmd.args@) == start + package_flags(texts(ctx.workspace_packages@.subrange(0, i as int))),
    {
        let ghost before = texts(cmd.args@);
        cmd = cmd.arg("-p".to_owned()).arg(ctx.workspace_packages[i].clone());
        proof {
            let sub = texts(ctx.workspace_packages@.subrange(0, i + 1));
            assert(sub.drop_last() =~= texts(ctx.workspace_packages@.subrange(0, i as int)));
            assert(sub.last() == ctx.workspace_packages@[i as int]@);
            assert(texts(cmd.args@) =~= before + seq!["-p"@, ctx.workspace_packages@[i as int]@]);
            assert(start + package_flags(sub) =~= start + package_flags(sub.drop_last()) + seq!["-p"@, sub.last()]);
        }
    }
    assert(ctx.workspace_packages@.subrange(0, np as int) =~= ctx.workspace_packages@);
    let ghost middle = texts(cmd.args@);
    for i in s..n
        invariant
            s <= n,
            n == ctx.clippy_args@.len(),
            ca == texts(ctx.clippy_args@),
            cmd.program == program,
            texts(cmd.args@) == middle + ca.subrange(s as int, i as int),
    {
        let ghost before = texts(cmd.args@);
        cmd = cmd.arg(ctx.clippy_args[i].clone());
        assert(texts(cmd.args@) =~= before.push(ca[i as int]));
        assert(ca.subrange(s as int, i + 1) =~= ca.subrange(s as int, i as int).push(ca[i as int]));
    }
    assert(ca.subrange(s as int, n as int) =~= ca.skip(s as int));
    assert(first_separator(ca, s as int));
    cmd
}

} // verus!
