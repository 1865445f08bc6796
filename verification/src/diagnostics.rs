use vstd::prelude::*;

use crate::context::{paths_of, Context};
use crate::error::Error;
use crate::matcher::{extends, FileMatcher};
use crate::paths::{is_canonical, join_spec, ComponentModel, FsPath};

verus! {

/// The level of a diagnostic as rustc reports it in its JSON messages.
#[derive(Clone, Copy, Debug, PartialEq, Eq, Structural)]
pub enum DiagnosticSeverity {
    /// An internal compiler error.
    Ice,
    Error,
    Warning,
    FailureNote,
    Note,
    Help,
}

/// The lowest level of the diagnostics that are reported.
#[derive(Clone, Copy, Debug, PartialEq, Eq, Structural, PartialOrd, Ord, Hash)]
pub enum Level {
    Note,
    Help,
    Warning,
    Error,
}

impl Level {
    /// The position of the level in the order `Note < Help < Warning < Error`.
    pub open spec fn rank(self) -> nat {
        match self {
            Level::Note => 0,
            Level::Help => 1,
            Level::Warning => 2,
            Level::Error => 3,
        }
    }

    /// The level that a diagnostic of the given severity is ranked at.
    pub open spec fn of_severity(severity: DiagnosticSeverity) -> Level {
        match severity {
            DiagnosticSeverity::Note => Level::Note,
            DiagnosticSeverity::Help => Level::Help,
            DiagnosticSeverity::Error | DiagnosticSeverity::Ice => Level::Error,
            _ => Level::Warning,
        }
    }

    /// Whether `self` is not below `threshold`.
    pub fn is_at_least(self, threshold: Level) -> (b: bool)
        ensures
            b == (self.rank() >= threshold.rank()),
            b == (threshold == Level::Note || self == threshold || self == Level::Error || (self
                == Level::Warning && threshold == Level::Help)),
    {
        let a: u8 = match self {
            Level::Note => 0,
            Level::Help => 1,
            Level::Warning => 2,
            Level::Error => 3,
        };
        let t: u8 = match threshold {
            Level::Note => 0,
            Level::Help => 1,
            Level::Warning => 2,
            Level::Error => 3,
        };
        a >= t
    }
}

/// The levels are ordered `Note < Help < Warning < Error`: every level is at least `Note`,
/// `Error` is at least every level, and a level is at least a threshold exactly where the
/// threshold is `Note`, the level itself, or below it in that order.
pub proof fn law_level_order()
    ensures
        Level::Note.rank() < Level::Help.rank(),
        Level::Help.rank() < Level::Warning.rank(),
        Level::Warning.rank() < Level::Error.rank(),
        forall|a: Level| #[trigger] a.rank() >= Level::Note.rank(),
        forall|a: Level| Level::Error.rank() >= #[trigger] a.rank(),
        forall|a: Level, t: Level|
            (#[trigger] a.rank() >= #[trigger] t.rank()) <==> (t == Level::Note || a == t || a == Level::Error || (a
                == Level::Warning && t == Level::Help)),
{
}

impl Default for Level {
    fn default() -> (level: Level)
        ensures
            level == Level::Warning,
    {
        Level::Warning
    }
}

impl From<DiagnosticSeverity> for Level {
    fn from(severity: DiagnosticSeverity) -> (level: Level) {
        match severity {
            DiagnosticSeverity::Note => Level::Note,
            DiagnosticSeverity::Help => Level::Help,
            DiagnosticSeverity::Error | DiagnosticSeverity::Ice => Level::Error,
            _ => Level::Warning,
        }
    }
}

impl vstd::std_specs::convert::FromSpecImpl<DiagnosticSeverity> for Level {
    open spec fn obeys_from_spec() -> bool {
        true
    }

    open spec fn from_spec(severity: DiagnosticSeverity) -> Level {
        Level::of_severity(severity)
    }
}

/// A diagnostic of a compiler message: its severity, its rendered text if it has one, and
/// the files of its spans, in order.
#[derive(Debug)]
pub struct CompilerDiagnostic {
    pub level: DiagnosticSeverity,
    pub rendered: Option<String>,
    pub span_files: Vec<FsPath>,
}

/// A message of `cargo clippy`: a compiler message, or any other kind.
#[derive(Debug)]
pub enum ClippyMessage {
    CompilerMessage(CompilerDiagnostic),
    Other,
}

/// The message is a compiler diagnostic with rendered text at or above `threshold`:
/// one that is reported if it concerns the files.
pub open spec fn is_candidate(message: ClippyMessage, threshold: Level) -> bool {
    match message {
        ClippyMessage::CompilerMessage(d) => d.rendered is Some && Level::of_severity(d.level).rank()
            >= threshold.rank(),
        ClippyMessage::Other => false,
    }
}

/// The matcher has resolved `file`, to one of its files.
pub open spec fn resolved_to_a_file(m: FileMatcher, file: Seq<ComponentModel>) -> bool {
    m.cached(file) is Some && m.files().contains(m.cached(file)->0)
}

/// Every resolution that `m` keeps and `m0` did not is canonical.
pub open spec fn new_resolutions_canonical(m0: FileMatcher, m: FileMatcher) -> bool {
    forall|f: Seq<ComponentModel>|
        m0.cached(f) is None && (#[trigger] m.cached(f)) is Some ==> is_canonical(m.cached(f)->0)
}

/// Span `i` is the first span that `m` could not resolve, joined onto the root of `m0` in
/// `path`: the spans before it resolved, none to one of the files, and it had not been
/// resolved before.
pub open spec fn first_unresolved_span(m0: FileMatcher, m: FileMatcher, spans: Seq<FsPath>, i: int, path: Seq<ComponentModel>) -> bool {
    &&& 0 <= i < spans.len()
    &&& path == join_spec(m0.workspace_root(), spans[i]@)
    &&& m.cached(spans[i]@) is None
    &&& forall|j: int| 0 <= j < i ==> m.cached((#[trigger] spans[j])@) is Some && !resolved_to_a_file(m, spans[j]@)
}

/// The state of one run over the messages of `cargo clippy`: the lowest level reported,
/// the matcher of the files (none where no files are given), and whether nothing has
/// been reported yet.
pub struct DiagnosticRun<'a> {
    threshold: Level,
    matcher: Option<FileMatcher<'a>>,
    success: bool,
}

impl<'a> DiagnosticRun<'a> {
    pub closed spec fn threshold(&self) -> Level {
        self.threshold
    }

    pub closed spec fn matcher(&self) -> Option<FileMatcher<'a>> {
        self.matcher
    }

    /// Nothing has been reported.
    pub closed spec fn success(&self) -> bool {
        self.success
    }

    /// A run for the context, with nothing reported yet.
    pub fn new(ctx: &'a Context) -> (run: DiagnosticRun<'a>)
        ensures
            run.threshold() == ctx.level,
            run.success(),
            match run.matcher() {
                Some(m) => {
                    &&& ctx.files@.len() > 0
                    &&& m.files() == paths_of(ctx.files@)
                    &&& m.workspace_root() == ctx.workspace_root@
                    &&& forall|f: Seq<ComponentModel>| #[trigger] m.cached(f) is None
                },
                None => ctx.files@.len() == 0,
            },
    {
        let matcher = if ctx.files.len() > 0 {
            Some(FileMatcher::new(&ctx.files, &ctx.workspace_root))
        } else {
            None
        };
        DiagnosticRun { threshold: ctx.level, matcher, success: true }
    }

    /// Takes one message: returns the rendered text to print where the message is reported.
    /// A compiler diagnostic with rendered text at or above the level is reported where no
    /// files are given, or where one of its spans resolves to one of the files; the spans
    /// are tried in order until one does.
    pub fn process(&mut self, message: &ClippyMessage) -> (r: Result<Option<String>, Error>)
        ensures
            final(self).threshold() == old(self).threshold(),
            final(self).matcher() is Some == old(self).matcher() is Some,
            final(self).success() ==> old(self).success(),
            old(self).matcher() matches Some(m0) ==> extends(m0, final(self).matcher()->0)
                && new_resolutions_canonical(m0, final(self).matcher()->0),
            !is_candidate(*message, old(self).threshold()) ==> r == Ok::<Option<String>, Error>(None)
                && final(self).success() == old(self).success() && final(self).matcher() == old(self).matcher(),
            is_candidate(*message, old(self).threshold()) ==> match (*message, r) {
                (ClippyMessage::CompilerMessage(d), Ok(Some(text))) => {
                    &&& text == d.rendered->0
                    &&& !final(self).success()
                    &&& match final(self).matcher() {
                        Some(m) => exists|i: int| 0 <= i < d.span_files@.len() && resolved_to_a_file(m, (#[trigger] d.span_files@[i])@),
                        None => true,
                    }
                },
                (ClippyMessage::CompilerMessage(d), Ok(None)) => {
                    &&& final(self).success() == old(self).success()
                    &&& final(self).matcher() matches Some(m) && forall|i: int| 0 <= i < d.span_files@.len() ==> m.cached((#[trigger] d.span_files@[i])@) is Some && !resolved_to_a_file(m, d.span_files@[i]@)
                },
                (ClippyMessage::CompilerMessage(d), Err(Error::PathResolution { path, source: _ })) => {
                    &&& final(self).success() == old(self).success()
                    &&& old(self).matcher() matches Some(m0) && exists|i: int|
                        #[trigger] first_unresolved_span(m0, final(self).matcher()->0, d.span_files@, i, path@)
                },
                _ => false,
            },
    {
        let d = match message {
            ClippyMessage::CompilerMessage(d) => d,
            ClippyMessage::Other => return Ok(None),
        };
        let rendered = match &d.rendered {
            Some(text) => text,
            None => return Ok(None),
        };
        if !Level::from(d.level).is_at_least(self.threshold) {
            return Ok(None);
        }
        let mut failure: Option<Error> = None;
        let matched = match &mut self.matcher {
            None => true,
            Some(m) => {
                let ghost m0 = *m;
                let n = d.span_files.len();
                let mut matched = false;
                let mut i: usize = 0;
                while i < n
                    invariant_except_break
                        !matched,
                        failure is None,
                    invariant
                        n == d.span_files@.len(),
                        0 <= i <= n,
                        extends(m0, *m),
                        new_resolutions_canonical(m0, *m),
                        forall|j: int| 0 <= j < i ==> m.cached((#[trigger] d.span_files@[j])@) is Some && !resolved_to_a_file(*m, d.span_files@[j]@),
                    ensures
                        failure matches Some(e) ==> e is PathResolution && !matched,
                        failure matches Some(Error::PathResolution { path, source: _ }) ==> exists|j: int|
                            #[trigger] first_unresolved_span(m0, *m, d.span_files@, j, path@),
                        failure is None && matched ==> exists|j: int| 0 <= j < n && resolved_to_a_file(*m, (#[trigger] d.span_files@[j])@),
                        failure is None && !matched ==> forall|j: int| 0 <= j < n ==> m.cached((#[trigger] d.span_files@[j])@) is Some && !resolved_to_a_file(*m, d.span_files@[j]@),
                    decreases n - i,
                {
                    let ghost before = *m;
                    let b = match m.matches(&d.span_files[i]) {
                        Ok(b) => b,
                        Err(e) => {
                            proof {
                                if let Error::PathResolution { path, source: _ } = &e {
                                    assert forall|j: int| 0 <= j < i implies m.cached((#[trigger] d.span_files@[j])@) is Some && !resolved_to_a_file(*m, d.span_files@[j]@) by {
                                        assert(before.cached(d.span_files@[j]@) is Some);
                                        assert(m.cached(d.span_files@[j]@) == before.cached(d.span_files@[j]@));
                                    }
                                    assert(first_unresolved_span(m0, *m, d.span_files@, i as int, path@));
                                }
                            }
                            failure = Some(e);
                            break;
                        },
                    };
                    proof {
                        assert forall|j: int| 0 <= j < i + 1 implies m.cached((#[trigger] d.span_files@[j])@) is Some && (j < i ==> !resolved_to_a_file(*m, d.span_files@[j]@)) by {
                            if j < i {
                                assert(before.cached(d.span_files@[j]@) is Some);
                            }
                        }
                    }
                    if b {
                        matched = true;
                        proof {
                            assert(resolved_to_a_file(*m, d.span_files@[i as int]@));
                        }
                        break;
                    }
                    i = i + 1;
                }
                matched
            },
        };
        if let Some(e) = failure {
            return Err(e);
        }
        if matched {
            self.success = false;
            Ok(Some(rendered.clone()))
        } else {
            Ok(None)
        }
    }

    /// The outcome once `cargo clippy` has exited: a failure where it exited with a failure
    /// status (with its exit code, or -1 where it has none), else whether nothing was
    /// reported.
    pub fn finish(&self, exit_success: bool, exit_code: Option<i32>) -> (r: Result<bool, Error>)
        ensures
            exit_success ==> r == Ok::<bool, Error>(self.success()),
            !exit_success ==> (r matches Err(Error::ClippyFailed { exit_code: c }) && c == match exit_code {
                Some(c) => c,
                None => -1i32,
            }),
    {
        if !exit_success {
            let code = match exit_code {
                Some(c) => c,
                None => -1,
            };
            return Err(Error::ClippyFailed { exit_code: code });
        }
        Ok(self.success)
    }
}

} // verus!
