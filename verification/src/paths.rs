use vstd::prelude::*;
use vstd::utf8::encode_utf8;

use crate::order::{
    bytes_compare, compare_bytes, is_total_comparison, lemma_byte_order_total, lemma_lex_compare_skip,
    lemma_lex_total, lex_compare, lex_order,
};

verus! {

/// One component of a path, as `std::path::Component` has it on Unix.
#[derive(Debug)]
pub enum PathComponent {
    /// The leading `/` of an absolute path.
    RootDir,
    /// A leading `.` of a relative path.
    CurDir,
    /// `..`.
    ParentDir,
    /// A file or directory name.
    Normal(String),
}

/// What a component is taken to be: a name stands for its UTF-8 bytes, as an `OsStr` is
/// compared.
pub enum ComponentModel {
    RootDir,
    CurDir,
    ParentDir,
    Normal(Seq<u8>),
}

impl View for PathComponent {
    type V = ComponentModel;

    open spec fn view(&self) -> ComponentModel {
        match self {
            PathComponent::RootDir => ComponentModel::RootDir,
            PathComponent::CurDir => ComponentModel::CurDir,
            PathComponent::ParentDir => ComponentModel::ParentDir,
            PathComponent::Normal(name) => ComponentModel::Normal(encode_utf8(name@)),
        }
    }
}

impl Clone for PathComponent {
    fn clone(&self) -> (res: Self)
        ensures
            res@ == self@,
    {
        match self {
            PathComponent::RootDir => PathComponent::RootDir,
            PathComponent::CurDir => PathComponent::CurDir,
            PathComponent::ParentDir => PathComponent::ParentDir,
            PathComponent::Normal(name) => PathComponent::Normal(name.clone()),
        }
    }
}

/// A file system path, held as its components (the way `std::path::Path` compares,
/// orders and prefixes paths).
#[derive(Debug)]
pub struct FsPath {
    pub components: Vec<PathComponent>,
}

impl View for FsPath {
    type V = Seq<ComponentModel>;

    open spec fn view(&self) -> Seq<ComponentModel> {
        self.components@.map_values(|c: PathComponent| c@)
    }
}

/// The rank of a component kind in the order of `std::path::Component`.
pub open spec fn component_rank(c: ComponentModel) -> int {
    match c {
        ComponentModel::RootDir => 0,
        ComponentModel::CurDir => 1,
        ComponentModel::ParentDir => 2,
        ComponentModel::Normal(_) => 3,
    }
}

/// Three-way comparison of components: by kind, then names by their bytes.
pub open spec fn compare_component_models(x: ComponentModel, y: ComponentModel) -> int {
    if component_rank(x) < component_rank(y) {
        -1
    } else if component_rank(x) > component_rank(y) {
        1
    } else {
        match (x, y) {
            (ComponentModel::Normal(a), ComponentModel::Normal(b)) => bytes_compare(a, b),
            _ => 0,
        }
    }
}

/// `compare_component_models` as a function value.
pub open spec fn component_order() -> spec_fn(ComponentModel, ComponentModel) -> int {
    |x: ComponentModel, y: ComponentModel| compare_component_models(x, y)
}

/// Three-way comparison of paths: lexicographic over their components, as `Path`'s `Ord`.
pub open spec fn path_compare(a: Seq<ComponentModel>, b: Seq<ComponentModel>) -> int {
    lex_compare(a, b, component_order())
}

/// `path` starts with the components of `base`, as `Path::starts_with`.
pub open spec fn starts_with(path: Seq<ComponentModel>, base: Seq<ComponentModel>) -> bool {
    base.len() <= path.len() && path.subrange(0, base.len() as int) == base
}

/// `Path::join` of `file` onto `base`: an absolute `file` replaces `base`; otherwise its
/// components follow those of `base`, and a leading `.` of `file` is dropped where it
/// lands in the middle of the result.
pub open spec fn join_spec(base: Seq<ComponentModel>, file: Seq<ComponentModel>) -> Seq<ComponentModel> {
    if file.len() > 0 && file[0] == ComponentModel::RootDir {
        file
    } else if base.len() == 0 {
        file
    } else if file.len() > 0 && file[0] == ComponentModel::CurDir {
        base + file.drop_first()
    } else {
        base + file
    }
}

/// An absolute path with no `.` or `..` in it, as a canonical path is: it has the root
/// among its components, and every other component is the root, a name, or (on Windows)
/// the prefix, which is held as a name.
pub open spec fn is_canonical(path: Seq<ComponentModel>) -> bool {
    &&& path.contains(ComponentModel::RootDir)
    &&& forall|i: int|
        0 <= i < path.len() ==> !(#[trigger] path[i] is CurDir) && !(path[i] is ParentDir)
}

/// `Path::parent`: the path without its last component, where that is a name, `.` or
/// `..`; none for the empty path and for `/`.
pub open spec fn parent_spec(path: Seq<ComponentModel>) -> Option<Seq<ComponentModel>> {
    if path.len() == 0 {
        None
    } else if path.last() == ComponentModel::RootDir {
        None
    } else {
        Some(path.drop_last())
    }
}

/// The component order is a total order, and so is the path order.
pub proof fn lemma_path_order_total()
    ensures
        is_total_comparison(component_order()),
        is_total_comparison(lex_order(component_order())),
{
    lemma_byte_order_total();
    lemma_lex_total(crate::order::byte_order());
    let c = component_order();
    let bo = lex_order(crate::order::byte_order());
    assert forall|x: ComponentModel, y: ComponentModel| -1 <= #[trigger] c(x, y) <= 1 by {
        if let (ComponentModel::Normal(a), ComponentModel::Normal(b)) = (x, y) {
            assert(-1 <= bo(a, b) <= 1);
        }
    }
    assert forall|x: ComponentModel, y: ComponentModel| #[trigger] c(x, y) == 0 <==> x == y by {
        if let (ComponentModel::Normal(a), ComponentModel::Normal(b)) = (x, y) {
            assert(bo(a, b) == 0 <==> a == b);
        }
    }
    assert forall|x: ComponentModel, y: ComponentModel| #[trigger] c(x, y) == -c(y, x) by {
        if let (ComponentModel::Normal(a), ComponentModel::Normal(b)) = (x, y) {
            assert(bo(a, b) == -bo(b, a));
        }
    }
    assert forall|x: ComponentModel, y: ComponentModel, z: ComponentModel|
        #![trigger c(x, y), c(y, z)]
        c(x, y) <= 0 && c(y, z) <= 0 implies c(x, z) <= 0 by {
        if let (ComponentModel::Normal(a), ComponentModel::Normal(b), ComponentModel::Normal(d)) = (
            x,
            y,
            z,
        ) {
            assert(bo(a, b) <= 0 && bo(b, d) <= 0 ==> bo(a, d) <= 0);
        }
    }
    lemma_lex_total(c);
}

/// Compares two components in the order of `std::path::Component`.
pub fn compare_components(x: &PathComponent, y: &PathComponent) -> (r: i8)
    ensures
        r == compare_component_models(x@, y@),
{
    let rx: u8 = match x {
        PathComponent::RootDir => 0,
        PathComponent::CurDir => 1,
        PathComponent::ParentDir => 2,
        PathComponent::Normal(_) => 3,
    };
    let ry: u8 = match y {
        PathComponent::RootDir => 0,
        PathComponent::CurDir => 1,
        PathComponent::ParentDir => 2,
        PathComponent::Normal(_) => 3,
    };
    if rx < ry {
        -1
    } else if rx > ry {
        1
    } else {
        match (x, y) {
            (PathComponent::Normal(a), PathComponent::Normal(b)) => {
                compare_bytes(a.as_str().as_bytes(), b.as_str().as_bytes())
            },
            _ => 0,
        }
    }
}

impl Clone for FsPath {
    fn clone(&self) -> (res: Self)
        ensures
            res@ == self@,
    {
        let mut components: Vec<PathComponent> = Vec::new();
        let n = self.components.len();
        for i in 0..n
            invariant
                n == self.components@.len(),
                components@.len() == i,
                forall|j: int| 0 <= j < i ==> #[trigger] components@[j]@ == self.components@[j]@,
        {
            components.push(self.components[i].clone());
        }
        let res = FsPath { components };
        assert(res@ =~= self@);
        res
    }
}

impl FsPath {
    /// The path with no components.
    pub fn empty() -> (res: FsPath)
        ensures
            res@ == Seq::<ComponentModel>::empty(),
    {
        let res = FsPath { components: Vec::new() };
        assert(res@ =~= Seq::<ComponentModel>::empty());
        res
    }

    /// The number of components.
    pub fn len(&self) -> (n: usize)
        ensures
            n == self@.len(),
    {
        self.components.len()
    }

    /// Three-way comparison in the order of `Path`'s `Ord`: `-1`, `0` or `1`.
    pub fn compare(&self, other: &FsPath) -> (r: i8)
        ensures
            r == path_compare(self@, other@),
    {
        proof {
            lemma_path_order_total();
            assert(self@.skip(0) =~= self@);
            assert(other@.skip(0) =~= other@);
        }
        let n = self.components.len();
        let m = other.components.len();
        let mut i: usize = 0;
        while i < n && i < m
            invariant
                n == self@.len(),
                m == other@.len(),
                0 <= i <= n,
                i <= m,
                is_total_comparison(component_order()),
                path_compare(self@, other@) == lex_compare(
                    self@.skip(i as int),
                    other@.skip(i as int),
                    component_order(),
                ),
            decreases n - i,
        {
            let r = compare_components(&self.components[i], &other.components[i]);
            proof {
                assert(self@[i as int] == self.components@[i as int]@);
                assert(other@[i as int] == other.components@[i as int]@);
                assert(self@.skip(i as int)[0] == self@[i as int]);
                assert(other@.skip(i as int)[0] == other@[i as int]);
            }
            if r != 0 {
                return r;
            }
            proof {
                lemma_lex_compare_skip(self@, other@, component_order(), i as int);
            }
            i = i + 1;
        }
        if n == m {
            0
        } else if i == n {
            -1
        } else {
            1
        }
    }

    /// Whether the two paths have equal components.
    pub fn same_as(&self, other: &FsPath) -> (b: bool)
        ensures
            b == (self@ == other@),
    {
        proof {
            lemma_path_order_total();
            let l = lex_order(component_order());
            assert(l(self@, other@) == 0 <==> self@ == other@);
        }
        self.compare(other) == 0
    }

    /// `Path::starts_with`: whether the components of `base` begin those of `self`.
    pub fn starts_with(&self, base: &FsPath) -> (b: bool)
        ensures
            b == starts_with(self@, base@),
    {
        proof {
            lemma_path_order_total();
        }
        let n = base.components.len();
        if n > self.components.len() {
            return false;
        }
        let mut i: usize = 0;
        while i < n
            invariant
                n == base@.len(),
                n <= self@.len(),
                0 <= i <= n,
                is_total_comparison(component_order()),
                forall|j: int| 0 <= j < i ==> self@[j] == base@[j],
            decreases n - i,
        {
            let r = compare_components(&self.components[i], &base.components[i]);
            proof {
                assert(self@[i as int] == self.components@[i as int]@);
                assert(base@[i as int] == base.components@[i as int]@);
                let c = component_order();
                assert(c(self@[i as int], base@[i as int]) == 0 <==> self@[i as int]
                    == base@[i as int]);
            }
            if r != 0 {
                proof {
                    assert(self@.subrange(0, n as int)[i as int] == self@[i as int]);
                }
                return false;
            }
            i = i + 1;
        }
        assert(self@.subrange(0, n as int) =~= base@);
        true
    }

    /// `Path::join`.
    pub fn join(&self, file: &FsPath) -> (res: FsPath)
        ensures
            res@ == join_spec(self@, file@),
    {
        let n = file.components.len();
        let absolute = n > 0 && match &file.components[0] {
            PathComponent::RootDir => true,
            _ => false,
        };
        if absolute || self.components.len() == 0 {
            return file.clone();
        }
        let skip_first: usize = if n > 0 && match &file.components[0] {
            PathComponent::CurDir => true,
            _ => false,
        } {
            1
        } else {
            0
        };
        let mut res = self.clone();
        let ghost base = self@;
        let mut i = skip_first;
        while i < n
            invariant
                n == file@.len(),
                skip_first <= i <= n,
                res@ == base + file@.subrange(skip_first as int, i as int),
            decreases n - i,
        {
            let ghost before = res@;
            res.components.push(file.components[i].clone());
            proof {
                assert(file@[i as int] == file.components@[i as int]@);
                assert(res@ =~= before.push(file@[i as int]));
                assert(file@.subrange(skip_first as int, i + 1) =~= file@.subrange(
                    skip_first as int,
                    i as int,
                ).push(file@[i as int]));
            }
            i = i + 1;
        }
        proof {
            if skip_first == 1 {
                assert(file@.subrange(1, n as int) =~= file@.drop_first());
                assert(file@[0] == file.components@[0]@);
            } else {
                assert(file@.subrange(0, n as int) =~= file@);
                if n > 0 {
                    assert(file@[0] == file.components@[0]@);
                }
            }
        }
        res
    }

    /// `Path::parent`.
    pub fn parent(&self) -> (res: Option<FsPath>)
        ensures
            match res {
                Some(p) => parent_spec(self@) == Some(p@),
                None => parent_spec(self@) is None,
            },
    {
        let n = self.components.len();
        if n == 0 {
            return None;
        }
        match &self.components[n - 1] {
            PathComponent::RootDir => {
                proof {
                    assert(self@.last() == self.components@[n - 1]@);
                }
                None
            },
            _ => {
                let mut res = FsPath::empty();
                let mut i: usize = 0;
                while i < n - 1
                    invariant
                        n == self@.len(),
                        n == self.components@.len(),
                        0 <= i <= n - 1,
                        res@ == self@.subrange(0, i as int),
                    decreases n - 1 - i,
                {
                    let ghost before = res@;
                    res.components.push(self.components[i].clone());
                    proof {
                        assert(self@[i as int] == self.components@[i as int]@);
                        assert(res@ =~= before.push(self@[i as int]));
                        assert(self@.subrange(0, i + 1) =~= self@.subrange(0, i as int).push(
                            self@[i as int],
                        ));
                    }
                    i = i + 1;
                }
                proof {
                    assert(self@.last() == self.components@[n - 1]@);
                    assert(self@.subrange(0, n - 1) =~= self@.drop_last());
                }
                Some(res)
            },
        }
    }
}

} // verus!
