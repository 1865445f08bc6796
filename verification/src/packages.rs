use vstd::prelude::*;
use vstd::utf8::{encode_utf8, encode_utf8_decode_utf8};

use crate::order::{bytes_compare, byte_order, compare_bytes, is_total_comparison, lemma_byte_order_total, lemma_lex_total, lex_order};
use crate::paths::{starts_with, ComponentModel, FsPath};

verus! {

/// A workspace package and the canonical directory of its manifest.
#[derive(Debug)]
pub struct PackageDir {
    pub name: String,
    pub dir: FsPath,
}

/// Three-way comparison of names in the order of `str`'s `Ord`: by their UTF-8 bytes.
pub open spec fn name_compare(a: Seq<char>, b: Seq<char>) -> int {
    bytes_compare(encode_utf8(a), encode_utf8(b))
}

/// `name_compare` as a function value.
pub open spec fn name_order() -> spec_fn(Seq<char>, Seq<char>) -> int {
    |a: Seq<char>, b: Seq<char>| name_compare(a, b)
}

/// The order of names is a total order.
pub proof fn lemma_name_order_total()
    ensures
        is_total_comparison(name_order()),
{
    lemma_byte_order_total();
    lemma_lex_total(byte_order());
    let bo = lex_order(byte_order());
    let c = name_order();
    assert forall|x: Seq<char>, y: Seq<char>| -1 <= #[trigger] c(x, y) <= 1 by {
        assert(-1 <= bo(encode_utf8(x), encode_utf8(y)) <= 1);
    }
    assert forall|x: Seq<char>, y: Seq<char>| #[trigger] c(x, y) == 0 <==> x == y by {
        assert(bo(encode_utf8(x), encode_utf8(y)) == 0 <==> encode_utf8(x) == encode_utf8(y));
        if encode_utf8(x) == encode_utf8(y) {
            encode_utf8_decode_utf8(x);
            encode_utf8_decode_utf8(y);
        }
    }
    assert forall|x: Seq<char>, y: Seq<char>| #[trigger] c(x, y) == -c(y, x) by {
        assert(bo(encode_utf8(x), encode_utf8(y)) == -bo(encode_utf8(y), encode_utf8(x)));
    }
    assert forall|x: Seq<char>, y: Seq<char>, z: Seq<char>|
        #![trigger c(x, y), c(y, z)]
        c(x, y) <= 0 && c(y, z) <= 0 implies c(x, z) <= 0 by {
        let (a, b, d) = (encode_utf8(x), encode_utf8(y), encode_utf8(z));
        assert(bo(a, b) <= 0 && bo(b, d) <= 0 ==> bo(a, d) <= 0);
    }
}

/// The facts of a total order, stated of `name_compare` itself.
pub proof fn lemma_name_compare_facts()
    ensures
        forall|a: Seq<char>, b: Seq<char>| -1 <= #[trigger] name_compare(a, b) <= 1,
        forall|a: Seq<char>, b: Seq<char>| #[trigger] name_compare(a, b) == 0 <==> a == b,
        forall|a: Seq<char>, b: Seq<char>| #[trigger] name_compare(a, b) == -name_compare(b, a),
        forall|a: Seq<char>, b: Seq<char>, d: Seq<char>|
            #![trigger name_compare(a, b), name_compare(b, d)]
            name_compare(a, b) <= 0 && name_compare(b, d) <= 0 ==> name_compare(a, d) <= 0,
{
    lemma_name_order_total();
    let l = name_order();
    assert forall|a: Seq<char>, b: Seq<char>| -1 <= #[trigger] name_compare(a, b) <= 1 by {
        assert(l(a, b) == name_compare(a, b));
    }
    assert forall|a: Seq<char>, b: Seq<char>| #[trigger] name_compare(a, b) == 0 <==> a == b by {
        assert(l(a, b) == name_compare(a, b));
    }
    assert forall|a: Seq<char>, b: Seq<char>|
        #[trigger] name_compare(a, b) == -name_compare(b, a) by {
        assert(l(a, b) == name_compare(a, b));
        assert(l(b, a) == name_compare(b, a));
    }
    assert forall|a: Seq<char>, b: Seq<char>, d: Seq<char>|
        #![trigger name_compare(a, b), name_compare(b, d)]
        name_compare(a, b) <= 0 && name_compare(b, d) <= 0 implies name_compare(a, d) <= 0 by {
        assert(l(a, b) == name_compare(a, b));
        assert(l(b, d) == name_compare(b, d));
        assert(l(a, d) == name_compare(a, d));
    }
}

/// Compares two names in the order of `str`'s `Ord`.
pub fn compare_names(a: &String, b: &String) -> (r: i8)
    ensures
        r == name_compare(a@, b@),
{
    compare_bytes(a.as_str().as_bytes(), b.as_str().as_bytes())
}

/// Package `i` owns `file`: `file` lies in its directory, and no package directory that
/// holds `file` is longer, so it is the innermost package holding `file`; where several
/// packages have that directory, the first of them.
pub open spec fn is_owner(dirs: Seq<PackageDir>, file: Seq<ComponentModel>, i: int) -> bool {
    &&& 0 <= i < dirs.len()
    &&& starts_with(file, dirs[i].dir@)
    &&& forall|j: int|
        0 <= j < dirs.len() && #[trigger] starts_with(file, dirs[j].dir@) ==> dirs[j].dir@.len()
            <= dirs[i].dir@.len() && (j < i ==> dirs[j].dir@.len() < dirs[i].dir@.len())
}

/// `file` is attributed to the package called `name`: that package owns `file`.
pub open spec fn owns(dirs: Seq<PackageDir>, file: Seq<ComponentModel>, name: Seq<char>) -> bool {
    exists|i: int| #[trigger] is_owner(dirs, file, i) && dirs[i].name@ == name
}

/// Some file of `files` is attributed to the package called `name`.
pub open spec fn reported(dirs: Seq<PackageDir>, files: Seq<FsPath>, name: Seq<char>) -> bool {
    exists|k: int| 0 <= k < files.len() && #[trigger] owns(dirs, files[k]@, name)
}

/// The names, in the order of the sequence.
pub open spec fn names_of(names: Seq<String>) -> Seq<Seq<char>> {
    names.map_values(|s: String| s@)
}

/// The names are in strictly ascending order.
pub open spec fn strictly_ascending(names: Seq<String>) -> bool {
    forall|a: int, b: int| 0 <= a < b < names.len() ==> name_compare(#[trigger] names[a]@, #[trigger] names[b]@) < 0
}

/// There is at most one owner.
pub proof fn lemma_owner_unique(dirs: Seq<PackageDir>, file: Seq<ComponentModel>, i1: int, i2: int)
    requires
        is_owner(dirs, file, i1),
        is_owner(dirs, file, i2),
    ensures
        i1 == i2,
{
    assert(starts_with(file, dirs[i1].dir@));
    assert(starts_with(file, dirs[i2].dir@));
}

/// A file that lies in the directory of a package, and in no package directory as long,
/// is attributed to that package: the innermost package holding a file names it.
pub proof fn law_file_attributed_to_its_package(dirs: Seq<PackageDir>, file: Seq<ComponentModel>, i: int)
    requires
        0 <= i < dirs.len(),
        starts_with(file, dirs[i].dir@),
        forall|j: int|
            0 <= j < dirs.len() && j != i && #[trigger] starts_with(file, dirs[j].dir@) ==> dirs[j].dir@.len()
                < dirs[i].dir@.len(),
    ensures
        is_owner(dirs, file, i),
        owns(dirs, file, dirs[i].name@),
{
    assert(is_owner(dirs, file, i));
}

/// Of the first `n` packages, the first of those with the longest directory holding
/// `file`.
pub open spec fn innermost_holder(dirs: Seq<PackageDir>, file: Seq<ComponentModel>, n: int) -> Option<int>
    decreases n,
{
    if n <= 0 {
        None
    } else {
        let prev = innermost_holder(dirs, file, n - 1);
        if starts_with(file, dirs[n - 1].dir@) && (prev is None || dirs[n - 1].dir@.len()
            > dirs[prev->0].dir@.len()) {
            Some(n - 1)
        } else {
            prev
        }
    }
}

proof fn lemma_innermost_holder(dirs: Seq<PackageDir>, file: Seq<ComponentModel>, n: int)
    requires
        0 <= n <= dirs.len(),
    ensures
        match innermost_holder(dirs, file, n) {
            None => forall|k: int| 0 <= k < n ==> !starts_with(file, #[trigger] dirs[k].dir@),
            Some(b) => {
                &&& 0 <= b < n
                &&& starts_with(file, dirs[b].dir@)
                &&& forall|k: int|
                    0 <= k < n && #[trigger] starts_with(file, dirs[k].dir@) ==> dirs[k].dir@.len()
                        <= dirs[b].dir@.len() && (k < b ==> dirs[k].dir@.len() < dirs[b].dir@.len())
            },
        },
    decreases n,
{
    if n > 0 {
        lemma_innermost_holder(dirs, file, n - 1);
    }
}

/// A file that lies in the directory of some package is attributed to a package.
pub proof fn law_file_in_a_package_is_attributed(dirs: Seq<PackageDir>, file: Seq<ComponentModel>, i: int)
    requires
        0 <= i < dirs.len(),
        starts_with(file, dirs[i].dir@),
    ensures
        exists|name: Seq<char>| owns(dirs, file, name),
{
    lemma_innermost_holder(dirs, file, dirs.len() as int);
    let o = innermost_holder(dirs, file, dirs.len() as int)->0;
    assert(is_owner(dirs, file, o));
    assert(owns(dirs, file, dirs[o].name@));
}

/// A file is attributed to at most one package.
pub proof fn law_one_package_per_file(dirs: Seq<PackageDir>, file: Seq<ComponentModel>, n1: Seq<char>, n2: Seq<char>)
    requires
        owns(dirs, file, n1),
        owns(dirs, file, n2),
    ensures
        n1 == n2,
{
    let i1 = choose|i: int| #[trigger] is_owner(dirs, file, i) && dirs[i].name@ == n1;
    let i2 = choose|i: int| #[trigger] is_owner(dirs, file, i) && dirs[i].name@ == n2;
    lemma_owner_unique(dirs, file, i1, i2);
}

/// A package is named only where one of the files lies in its directory.
pub proof fn law_named_package_holds_a_file(dirs: Seq<PackageDir>, files: Seq<FsPath>, name: Seq<char>)
    requires
        reported(dirs, files, name),
    ensures
        exists|i: int, k: int|
            0 <= i < dirs.len() && 0 <= k < files.len() && dirs[i].name@ == name && starts_with(
                #[trigger] files[k]@,
                #[trigger] dirs[i].dir@,
            ),
{
    let k = choose|k: int| 0 <= k < files.len() && #[trigger] owns(dirs, files[k]@, name);
    let i = choose|i: int| #[trigger] is_owner(dirs, files[k]@, i) && dirs[i].name@ == name;
    assert(starts_with(files[k]@, dirs[i].dir@));
}

/// The owner of `file`: the first of the packages with the longest directory holding it.
fn owner_of(dirs: &Vec<PackageDir>, file: &FsPath) -> (r: Option<usize>)
    ensures
        match r {
            Some(i) => is_owner(dirs@, file@, i as int),
            None => forall|i: int| !is_owner(dirs@, file@, i),
        },
{
    let n = dirs.len();
    let mut best: Option<usize> = None;
    for j in 0..n
        invariant
            n == dirs@.len(),
            match best {
                None => forall|k: int| 0 <= k < j ==> !starts_with(file@, #[trigger] dirs@[k].dir@),
                Some(b) => {
                    &&& b < j
                    &&& starts_with(file@, dirs@[b as int].dir@)
                    &&& forall|k: int|
                        0 <= k < j && #[trigger] starts_with(file@, dirs@[k].dir@) ==> dirs@[k].dir@.len()
                            <= dirs@[b as int].dir@.len() && (k < b ==> dirs@[k].dir@.len() < dirs@[b as int].dir@.len())
                },
            },
    {
        if file.starts_with(&dirs[j].dir) {
            match best {
                None => {
                    best = Some(j);
                },
                Some(b) => {
                    if dirs[j].dir.len() > dirs[b].dir.len() {
                        best = Some(j);
                    }
                },
            }
        }
    }
    proof {
        if best is None {
            assert forall|i: int| !is_owner(dirs@, file@, i) by {
                if is_owner(dirs@, file@, i) {
                    assert(starts_with(file@, dirs@[i].dir@));
                }
            }
        }
    }
    best
}

/// Adds a name to a strictly ascending list of names, unless it is there already.
fn insert_name(names: &mut Vec<String>, name: &String)
    requires
        strictly_ascending(old(names)@),
    ensures
        strictly_ascending(final(names)@),
        forall|x: Seq<char>|
            names_of(final(names)@).contains(x) <==> (names_of(old(names)@).contains(x) || x == name@),
{
    proof {
        lemma_name_compare_facts();
    }
    let n = names.len();
    let mut k: usize = 0;
    while k < n && compare_names(&names[k], name) < 0
        invariant
            n == names@.len(),
            0 <= k <= n,
            forall|m: int| 0 <= m < k ==> name_compare(#[trigger] names@[m]@, name@) < 0,
        decreases n - k,
    {
        k = k + 1;
    }
    proof {
        lemma_name_compare_facts();
        assert forall|m: int| k <= m < n implies name_compare(name@, #[trigger] names@[m]@) <= 0 by {
            let b = names@[k as int]@;
            if m > k {
                assert(name_compare(b, names@[m]@) < 0);
            }
            assert(name_compare(b, name@) >= 0);
        }
    }
    if k < n && compare_names(&names[k], name) == 0 {
        proof {
            assert(names@[k as int]@ == name@);
            assert forall|x: Seq<char>|
                names_of(names@).contains(x) <==> (names_of(names@).contains(x) || x == name@) by {
                if x == name@ {
                    assert(names_of(names@)[k as int] == x);
                }
            }
        }
        return;
    }
    let ghost old_names = names@;
    let copy = name.clone();
    let ghost inserted = copy;
    names.insert(k, copy);
    proof {
        assert forall|m: int| k <= m < n implies name_compare(name@, #[trigger] old_names[m]@) < 0 by {
            assert(name_compare(name@, old_names[m]@) <= 0);
            if name_compare(name@, old_names[m]@) == 0 {
                assert(name@ == old_names[m]@);
                if m > k {
                    assert(name_compare(old_names[k as int]@, old_names[m]@) < 0);
                }
            }
        }
        lemma_insert_keeps_ascending(old_names, k as int, inserted);
        lemma_insert_names(old_names, k as int, inserted);
    }
}

proof fn lemma_insert_keeps_ascending(names: Seq<String>, k: int, name: String)
    requires
        0 <= k <= names.len(),
        strictly_ascending(names),
        forall|m: int| 0 <= m < k ==> name_compare(#[trigger] names[m]@, name@) < 0,
        forall|m: int| k <= m < names.len() ==> name_compare(name@, #[trigger] names[m]@) < 0,
    ensures
        strictly_ascending(names.insert(k, name)),
{
    lemma_name_compare_facts();
    let new = names.insert(k, name);
    assert forall|a: int, b: int| 0 <= a < b < new.len() implies name_compare(#[trigger] new[a]@, #[trigger] new[b]@) < 0 by {
        if a < k && b < k {
            assert(new[a] == names[a] && new[b] == names[b]);
        } else if a < k && b == k {
            assert(new[a] == names[a] && new[b] == name);
        } else if a < k {
            assert(new[a] == names[a] && new[b] == names[b - 1]);
            assert(name_compare(names[a]@, name@) < 0);
            assert(name_compare(name@, names[b - 1]@) < 0);
        } else if a == k {
            assert(new[a] == name && new[b] == names[b - 1]);
        } else {
            assert(new[a] == names[a - 1] && new[b] == names[b - 1]);
        }
    }
}

proof fn lemma_insert_names(names: Seq<String>, k: int, name: String)
    requires
        0 <= k <= names.len(),
    ensures
        forall|x: Seq<char>|
            names_of(names.insert(k, name)).contains(x) <==> (names_of(names).contains(x) || x == name@),
{
    let new = names.insert(k, name);
    assert forall|x: Seq<char>|
        names_of(new).contains(x) <==> (names_of(names).contains(x) || x == name@) by {
        if names_of(new).contains(x) {
            let m = choose|m: int| 0 <= m < names_of(new).len() && names_of(new)[m] == x;
            if m < k {
                assert(names_of(names)[m] == x);
            } else if m > k {
                assert(names_of(names)[m - 1] == x);
            }
        }
        if names_of(names).contains(x) {
            let m = choose|m: int| 0 <= m < names_of(names).len() && names_of(names)[m] == x;
            if m < k {
                assert(names_of(new)[m] == x);
            } else {
                assert(names_of(new)[m + 1] == x);
            }
        }
        if x == name@ {
            assert(names_of(new)[k] == x);
        }
    }
}

/// The names of the packages that the files are attributed to, sorted and without
/// repetition. A file is attributed to the innermost package holding it: the one with
/// the longest directory that the file lies in.
pub fn packages_for_files(files: &Vec<FsPath>, dirs: &Vec<PackageDir>) -> (names: Vec<String>)
    ensures
        strictly_ascending(names@),
        forall|name: Seq<char>| names_of(names@).contains(name) <==> reported(dirs@, files@, name),
{
    let mut names: Vec<String> = Vec::new();
    let nf = files.len();
    for k in 0..nf
        invariant
            nf == files@.len(),
            strictly_ascending(names@),
            forall|name: Seq<char>|
                names_of(names@).contains(name) <==> exists|q: int| 0 <= q < k && #[trigger] owns(dirs@, files@[q]@, name),
    {
        let ghost before = names@;
        let owner = owner_of(dirs, &files[k]);
        match owner {
            Some(i) => {
                insert_name(&mut names, &dirs[i].name);
                proof {
                    assert(owns(dirs@, files@[k as int]@, dirs@[i as int].name@));
                    assert forall|name: Seq<char>|
                        owns(dirs@, files@[k as int]@, name) implies name == dirs@[i as int].name@ by {
                        let i2 = choose|i2: int| #[trigger] is_owner(dirs@, files@[k as int]@, i2) && dirs@[i2].name@ == name;
                        lemma_owner_unique(dirs@, files@[k as int]@, i as int, i2);
                    }
                }
            },
            None => {
                proof {
                    assert forall|name: Seq<char>| !owns(dirs@, files@[k as int]@, name) by {}
                }
            },
        }
        proof {
            assert forall|name: Seq<char>|
                names_of(names@).contains(name) <==> exists|q: int| 0 <= q < k + 1 && #[trigger] owns(dirs@, files@[q]@, name) by {
                if owns(dirs@, files@[k as int]@, name) {
                    assert(exists|q: int| 0 <= q < k + 1 && #[trigger] owns(dirs@, files@[q]@, name));
                }
                if exists|q: int| 0 <= q < k + 1 && #[trigger] owns(dirs@, files@[q]@, name) {
                    let q = choose|q: int| 0 <= q < k + 1 && #[trigger] owns(dirs@, files@[q]@, name);
                    if q < k {
                        assert(exists|q: int| 0 <= q < k && #[trigger] owns(dirs@, files@[q]@, name));
                    }
                }
            }
        }
    }
    names
}

/// Two strictly ascending lists of names that hold the same names are the same list.
pub proof fn lemma_ascending_unique(a: Seq<String>, b: Seq<String>)
    requires
        strictly_ascending(a),
        strictly_ascending(b),
        forall|n: Seq<char>| names_of(a).contains(n) <==> names_of(b).contains(n),
    ensures
        names_of(a) == names_of(b),
    decreases a.len() + b.len(),
{
    lemma_name_compare_facts();
    if a.len() == 0 || b.len() == 0 {
        if a.len() > 0 {
            assert(names_of(a)[0] == a[0]@);
            assert(names_of(b).contains(a[0]@));
        }
        if b.len() > 0 {
            assert(names_of(b)[0] == b[0]@);
            assert(names_of(a).contains(b[0]@));
        }
        assert(names_of(a) =~= names_of(b));
    } else {
        let x = a[0]@;
        let y = b[0]@;
        assert(names_of(a)[0] == x);
        assert(names_of(b)[0] == y);
        assert(names_of(b).contains(x));
        assert(names_of(a).contains(y));
        let jb = choose|j: int| 0 <= j < names_of(b).len() && names_of(b)[j] == x;
        let ja = choose|j: int| 0 <= j < names_of(a).len() && names_of(a)[j] == y;
        if jb > 0 {
            assert(name_compare(b[0]@, b[jb]@) < 0);
        }
        if ja > 0 {
            assert(name_compare(a[0]@, a[ja]@) < 0);
        }
        assert(x == y);
        let a1 = a.drop_first();
        let b1 = b.drop_first();
        assert forall|i: int, j: int| 0 <= i < j < a1.len() implies name_compare(#[trigger] a1[i]@, #[trigger] a1[j]@) < 0 by {
            assert(a1[i] == a[i + 1] && a1[j] == a[j + 1]);
        }
        assert forall|i: int, j: int| 0 <= i < j < b1.len() implies name_compare(#[trigger] b1[i]@, #[trigger] b1[j]@) < 0 by {
            assert(b1[i] == b[i + 1] && b1[j] == b[j + 1]);
        }
        assert forall|n: Seq<char>| names_of(a1).contains(n) <==> names_of(b1).contains(n) by {
            if names_of(a1).contains(n) {
                let i = choose|i: int| 0 <= i < names_of(a1).len() && names_of(a1)[i] == n;
                assert(names_of(a)[i + 1] == n);
                assert(name_compare(a[0]@, a[i + 1]@) < 0);
                assert(names_of(b).contains(n));
                let j = choose|j: int| 0 <= j < names_of(b).len() && names_of(b)[j] == n;
                assert(j != 0);
                assert(names_of(b1)[j - 1] == n);
            }
            if names_of(b1).contains(n) {
                let i = choose|i: int| 0 <= i < names_of(b1).len() && names_of(b1)[i] == n;
                assert(names_of(b)[i + 1] == n);
                assert(name_compare(b[0]@, b[i + 1]@) < 0);
                assert(names_of(a).contains(n));
                let j = choose|j: int| 0 <= j < names_of(a).len() && names_of(a)[j] == n;
                assert(j != 0);
                assert(names_of(a1)[j - 1] == n);
            }
        }
        lemma_ascending_unique(a1, b1);
        assert(names_of(a) =~= names_of(b)) by {
            assert forall|i: int| 0 <= i < names_of(a).len() implies names_of(a)[i] == names_of(b)[i] by {
                if i > 0 {
                    assert(names_of(a1)[i - 1] == names_of(a)[i]);
                    assert(names_of(b1)[i - 1] == names_of(b)[i]);
                }
            }
        }
    }
}

/// One of the paths is `p`.
pub open spec fn holds_path(files: Seq<FsPath>, p: Seq<ComponentModel>) -> bool {
    exists|k: int| 0 <= k < files.len() && (#[trigger] files[k])@ == p
}

/// The package names depend only on which files are given, not on their order or
/// repetition: two results for lists holding the same files are the same.
pub proof fn law_packages_depend_on_the_set_of_files(
    dirs: Seq<PackageDir>,
    files1: Seq<FsPath>,
    files2: Seq<FsPath>,
    names1: Seq<String>,
    names2: Seq<String>,
)
    requires
        forall|p: Seq<ComponentModel>| #[trigger] holds_path(files1, p) <==> holds_path(files2, p),
        strictly_ascending(names1),
        strictly_ascending(names2),
        forall|name: Seq<char>| names_of(names1).contains(name) <==> reported(dirs, files1, name),
        forall|name: Seq<char>| names_of(names2).contains(name) <==> reported(dirs, files2, name),
    ensures
        names_of(names1) == names_of(names2),
{
    assert forall|name: Seq<char>| reported(dirs, files1, name) <==> reported(dirs, files2, name) by {
        if reported(dirs, files1, name) {
            let k = choose|k: int| 0 <= k < files1.len() && #[trigger] owns(dirs, files1[k]@, name);
            let p = files1[k]@;
            assert(holds_path(files1, p));
            let k2 = choose|k2: int| 0 <= k2 < files2.len() && (#[trigger] files2[k2])@ == p;
            assert(owns(dirs, files2[k2]@, name));
        }
        if reported(dirs, files2, name) {
            let k = choose|k: int| 0 <= k < files2.len() && #[trigger] owns(dirs, files2[k]@, name);
            let p = files2[k]@;
            assert(holds_path(files2, p));
            assert(holds_path(files1, p));
            let k1 = choose|k1: int| 0 <= k1 < files1.len() && (#[trigger] files1[k1])@ == p;
            assert(owns(dirs, files1[k1]@, name));
        }
    }
    lemma_ascending_unique(names1, names2);
}


/// One of the packages has the name and directory of `p`.
pub open spec fn has_package(dirs: Seq<PackageDir>, p: PackageDir) -> bool {
    exists|j: int| 0 <= j < dirs.len() && (#[trigger] dirs[j]).name@ == p.name@ && dirs[j].dir@ == p.dir@
}

/// The two package lists hold the same packages: the same names with the same
/// directories.
pub open spec fn same_packages(dirs1: Seq<PackageDir>, dirs2: Seq<PackageDir>) -> bool {
    &&& forall|i: int| 0 <= i < dirs1.len() ==> has_package(dirs2, #[trigger] dirs1[i])
    &&& forall|j: int| 0 <= j < dirs2.len() ==> has_package(dirs1, #[trigger] dirs2[j])
}

/// No two packages have the same directory.
pub open spec fn distinct_dirs(dirs: Seq<PackageDir>) -> bool {
    forall|a: int, b: int| 0 <= a < b < dirs.len() ==> (#[trigger] dirs[a]).dir@ != (#[trigger] dirs[b]).dir@
}

proof fn lemma_owns_carries_over(dirs1: Seq<PackageDir>, dirs2: Seq<PackageDir>, file: Seq<ComponentModel>, name: Seq<char>)
    requires
        same_packages(dirs1, dirs2),
        distinct_dirs(dirs2),
        owns(dirs1, file, name),
    ensures
        owns(dirs2, file, name),
{
    let i = choose|i: int| #[trigger] is_owner(dirs1, file, i) && dirs1[i].name@ == name;
    assert(0 <= i < dirs1.len());
    assert(has_package(dirs2, dirs1[i]));
    let j = choose|j: int| 0 <= j < dirs2.len() && (#[trigger] dirs2[j]).name@ == dirs1[i].name@ && dirs2[j].dir@ == dirs1[i].dir@;
    assert forall|j2: int|
        0 <= j2 < dirs2.len() && #[trigger] starts_with(file, dirs2[j2].dir@) implies dirs2[j2].dir@.len()
            <= dirs2[j].dir@.len() && (j2 < j ==> dirs2[j2].dir@.len() < dirs2[j].dir@.len()) by {
        assert(has_package(dirs1, dirs2[j2]));
        let i2 = choose|i2: int| 0 <= i2 < dirs1.len() && (#[trigger] dirs1[i2]).name@ == dirs2[j2].name@ && dirs1[i2].dir@ == dirs2[j2].dir@;
        assert(starts_with(file, dirs1[i2].dir@));
        if j2 < j && dirs2[j2].dir@.len() == dirs2[j].dir@.len() {
            assert(dirs2[j2].dir@ == file.subrange(0, dirs2[j].dir@.len() as int));
            assert(dirs2[j2].dir@ == dirs2[j].dir@);
        }
    }
    assert(is_owner(dirs2, file, j));
}

/// The package names do not depend on the order in which the packages come, where no two
/// of them share a directory: two lists of the same packages give the same names, in the
/// same order.
pub proof fn law_packages_do_not_depend_on_package_order(
    dirs1: Seq<PackageDir>,
    dirs2: Seq<PackageDir>,
    files: Seq<FsPath>,
    names1: Seq<String>,
    names2: Seq<String>,
)
    requires
        same_packages(dirs1, dirs2),
        distinct_dirs(dirs1),
        distinct_dirs(dirs2),
        strictly_ascending(names1),
        strictly_ascending(names2),
        forall|name: Seq<char>| names_of(names1).contains(name) <==> reported(dirs1, files, name),
        forall|name: Seq<char>| names_of(names2).contains(name) <==> reported(dirs2, files, name),
    ensures
        names_of(names1) == names_of(names2),
{
    assert(same_packages(dirs2, dirs1));
    assert forall|name: Seq<char>| reported(dirs1, files, name) <==> reported(dirs2, files, name) by {
        if reported(dirs1, files, name) {
            let k = choose|k: int| 0 <= k < files.len() && #[trigger] owns(dirs1, files[k]@, name);
            lemma_owns_carries_over(dirs1, dirs2, files[k]@, name);
        }
        if reported(dirs2, files, name) {
            let k = choose|k: int| 0 <= k < files.len() && #[trigger] owns(dirs2, files[k]@, name);
            lemma_owns_carries_over(dirs2, dirs1, files[k]@, name);
        }
    }
    lemma_ascending_unique(names1, names2);
}

} // verus!
