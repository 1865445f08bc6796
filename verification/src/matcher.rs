use vstd::prelude::*;

use crate::context::paths_of;
use crate::error::Error;
use crate::filesystem::canonicalize;
use crate::paths::{is_canonical, join_spec, ComponentModel, FsPath};

verus! {

/// The resolution that the first `n` cache entries give `file`: that of the last entry
/// for it.
pub open spec fn cache_lookup(entries: Seq<(FsPath, FsPath)>, file: Seq<ComponentModel>, n: int) -> Option<Seq<ComponentModel>>
    decreases n,
{
    if n <= 0 {
        None
    } else if entries[n - 1].0@ == file {
        Some(entries[n - 1].1@)
    } else {
        cache_lookup(entries, file, n - 1)
    }
}

proof fn lemma_lookup_prefix(entries: Seq<(FsPath, FsPath)>, e: (FsPath, FsPath), file: Seq<ComponentModel>, m: int)
    requires
        0 <= m <= entries.len(),
    ensures
        cache_lookup(entries.push(e), file, m) == cache_lookup(entries, file, m),
    decreases m,
{
    if m > 0 {
        assert(entries.push(e)[m - 1] == entries[m - 1]);
        lemma_lookup_prefix(entries, e, file, m - 1);
    }
}

/// Appending an entry gives its file the entry's resolution and leaves the other files
/// as they were.
proof fn lemma_lookup_push(entries: Seq<(FsPath, FsPath)>, e: (FsPath, FsPath))
    ensures
        forall|file: Seq<ComponentModel>|
            #[trigger] cache_lookup(entries.push(e), file, entries.len() + 1 as int) == if e.0@ == file {
                Some(e.1@)
            } else {
                cache_lookup(entries, file, entries.len() as int)
            },
{
    assert forall|file: Seq<ComponentModel>|
        #[trigger] cache_lookup(entries.push(e), file, entries.len() + 1 as int) == if e.0@ == file {
            Some(e.1@)
        } else {
            cache_lookup(entries, file, entries.len() as int)
        } by {
        assert(entries.push(e)[entries.len() as int] == e);
        lemma_lookup_prefix(entries, e, file, entries.len() as int);
    }
}

/// `after` keeps what `before` resolved and has the same files and root.
pub open spec fn extends(before: FileMatcher, after: FileMatcher) -> bool {
    &&& after.files() == before.files()
    &&& after.workspace_root() == before.workspace_root()
    &&& forall|f: Seq<ComponentModel>| #[trigger] before.cached(f) is Some ==> after.cached(f) == before.cached(f)
}

/// An answer keeps what was resolved before.
pub proof fn law_answer_keeps_resolutions(before: FileMatcher, after: FileMatcher, file: Seq<ComponentModel>, b: bool)
    requires
        FileMatcher::answered(&before, &after, file, b),
    ensures
        extends(before, after),
{
    assert forall|f: Seq<ComponentModel>| #[trigger] before.cached(f) is Some implies after.cached(f) == before.cached(f) by {
        if f != file {
            assert(after.cached(f) == before.cached(f));
        }
    }
}

/// Once a file has been answered, every later answer for it is the same, whatever was
/// answered in between: the matcher answers from the resolution it kept.
pub proof fn law_answers_repeat(m0: FileMatcher, m1: FileMatcher, m2: FileMatcher, m3: FileMatcher, file: Seq<ComponentModel>, b1: bool, b2: bool)
    requires
        FileMatcher::answered(&m0, &m1, file, b1),
        extends(m1, m2),
        FileMatcher::answered(&m2, &m3, file, b2),
    ensures
        b1 == b2,
{
}

/// Answers whether a path that a diagnostic names is one of the files reported on,
/// resolving each path against the workspace root once and keeping the resolution.
pub struct FileMatcher<'a> {
    files: &'a Vec<FsPath>,
    workspace_root: &'a FsPath,
    /// The resolutions kept, an association list in which the last entry for a path
    /// counts: a hashed map keyed by paths would rest on a hash of paths that Verus has no
    /// model of.
    cache: Vec<(FsPath, FsPath)>,
}

impl<'a> FileMatcher<'a> {
    /// The files reported on.
    pub closed spec fn files(&self) -> Seq<Seq<ComponentModel>> {
        paths_of(self.files@)
    }

    /// The workspace root that paths are resolved against.
    pub closed spec fn workspace_root(&self) -> Seq<ComponentModel> {
        self.workspace_root@
    }

    /// The resolution kept for `file`, if it was resolved.
    pub closed spec fn cached(&self, file: Seq<ComponentModel>) -> Option<Seq<ComponentModel>> {
        cache_lookup(self.cache@, file, self.cache@.len() as int)
    }

    /// `after` is `before` once `matches` has answered `b` for `file`: the resolution of
    /// `file` is kept (the one kept before, if there was one), `b` says whether it is one
    /// of the files, and nothing else changed.
    pub open spec fn answered(before: &FileMatcher, after: &FileMatcher, file: Seq<ComponentModel>, b: bool) -> bool {
        &&& after.files() == before.files()
        &&& after.workspace_root() == before.workspace_root()
        &&& after.cached(file) is Some
        &&& (before.cached(file) is Some ==> after.cached(file) == before.cached(file))
        &&& forall|f: Seq<ComponentModel>| f != file ==> #[trigger] after.cached(f) == before.cached(f)
        &&& b == after.files().contains(after.cached(file)->0)
    }

    /// A matcher for the given files, with nothing resolved yet.
    pub fn new(files: &'a Vec<FsPath>, workspace_root: &'a FsPath) -> (m: Self)
        ensures
            m.files() == paths_of(files@),
            m.workspace_root() == workspace_root@,
            forall|f: Seq<ComponentModel>| #[trigger] m.cached(f) is None,
    {
        FileMatcher { files, workspace_root, cache: Vec::new() }
    }

    /// Whether `path` is one of the files.
    fn is_one_of_the_files(&self, path: &FsPath) -> (b: bool)
        ensures
            b == self.files().contains(path@),
    {
        let nf = self.files.len();
        let mut contained = false;
        for k in 0..nf
            invariant
                nf == self.files@.len(),
                contained == exists|q: int| 0 <= q < k && (#[trigger] self.files@[q])@ == path@,
        {
            if self.files[k].same_as(path) {
                contained = true;
            }
        }
        proof {
            if contained {
                let q = choose|q: int| 0 <= q < nf && (#[trigger] self.files@[q])@ == path@;
                assert(self.files()[q] == path@);
            }
            if self.files().contains(path@) {
                let q = choose|q: int| 0 <= q < self.files().len() && self.files()[q] == path@;
                assert(self.files@[q]@ == path@);
            }
        }
        contained
    }

    /// Keeps `resolved` as the resolution of `file`, which has none yet, and answers whether
    /// it is one of the files.
    pub fn record(&mut self, file: &FsPath, resolved: FsPath) -> (b: bool)
        requires
            old(self).cached(file@) is None,
        ensures
            final(self).cached(file@) == Some(resolved@),
            FileMatcher::answered(old(self), final(self), file@, b),
            b == old(self).files().contains(resolved@),
    {
        let b = self.is_one_of_the_files(&resolved);
        let ghost entries = self.cache@;
        let entry = (file.clone(), resolved);
        let ghost pushed = entry;
        self.cache.push(entry);
        proof {
            assert(self.cache@ == entries.push(pushed));
            lemma_lookup_push(entries, pushed);
        }
        b
    }

    /// Whether `file`, joined onto the workspace root and resolved against the file system,
    /// is one of the files. A file resolved before is answered from its kept resolution; a
    /// file not resolved before gets as its resolution what the file system gives for it,
    /// a canonical path.
    pub fn matches(&mut self, file: &FsPath) -> (r: Result<bool, Error>)
        ensures
            match r {
                Ok(b) => {
                    &&& FileMatcher::answered(old(self), final(self), file@, b)
                    &&& old(self).cached(file@) is None ==> is_canonical(final(self).cached(file@)->0)
                },
                Err(Error::PathResolution { path, source: _ }) => {
                    &&& old(self).cached(file@) is None
                    &&& path@ == join_spec(old(self).workspace_root(), file@)
                    &&& final(self).files() == old(self).files()
                    &&& final(self).workspace_root() == old(self).workspace_root()
                    &&& forall|f: Seq<ComponentModel>| #[trigger] final(self).cached(f) == old(self).cached(f)
                },
                Err(_) => false,
            },
    {
        let n = self.cache.len();
        let mut i = n;
        let mut found: Option<usize> = None;
        while i > 0
            invariant_except_break
                found is None,
            invariant
                n == self.cache@.len(),
                0 <= i <= n,
                cache_lookup(self.cache@, file@, n as int) == cache_lookup(self.cache@, file@, i as int),
            ensures
                match found {
                    Some(j) => j < n && self.cache@[j as int].0@ == file@ && cache_lookup(self.cache@, file@, n as int) == Some(self.cache@[j as int].1@),
                    None => cache_lookup(self.cache@, file@, n as int) is None,
                },
            decreases i,
        {
            if self.cache[i - 1].0.same_as(file) {
                found = Some(i - 1);
                break;
            }
            i = i - 1;
        }
        match found {
            Some(j) => Ok(self.is_one_of_the_files(&self.cache[j].1)),
            None => {
                let full_path = self.workspace_root.join(file);
                match canonicalize(&full_path) {
                    Ok(resolved) => Ok(self.record(file, resolved)),
                    Err(source) => Err(Error::PathResolution { path: full_path, source }),
                }
            },
        }
    }
}

} // verus!
