use clipped::packages::{compare_names, packages_for_files, PackageDir};
use clipped::paths::{FsPath, PathComponent};

fn path(s: &str) -> FsPath {
    let mut components = Vec::new();
    if s.starts_with('/') {
        components.push(PathComponent::RootDir);
    }
    for seg in s.split('/') {
        if !seg.is_empty() {
            components.push(PathComponent::Normal(seg.to_string()));
        }
    }
    FsPath { components }
}

fn dir(name: &str, d: &str) -> PackageDir {
    PackageDir { name: name.to_string(), dir: path(d) }
}

#[test]
fn single_file_resolves_single_package() {
    let dirs = vec![dir("a", "/ws/crates/a"), dir("b", "/ws/crates/b")];
    let files = vec![path("/ws/crates/b/src/lib.rs")];
    assert_eq!(packages_for_files(&files, &dirs), vec!["b".to_string()]);
}

#[test]
fn files_of_two_packages_resolve_both_sorted() {
    let dirs = vec![dir("b", "/ws/crates/b"), dir("a", "/ws/crates/a")];
    let files = vec![path("/ws/crates/b/src/lib.rs"), path("/ws/crates/a/src/lib.rs")];
    assert_eq!(packages_for_files(&files, &dirs), vec!["a".to_string(), "b".to_string()]);
}

#[test]
fn repeated_package_is_named_once() {
    let dirs = vec![dir("a", "/ws/crates/a")];
    let files = vec![path("/ws/crates/a/src/lib.rs"), path("/ws/crates/a/src/main.rs")];
    assert_eq!(packages_for_files(&files, &dirs), vec!["a".to_string()]);
}

#[test]
fn file_outside_every_package_names_none() {
    let dirs = vec![dir("a", "/ws/crates/a"), dir("b", "/ws/crates/b")];
    let files = vec![path("/ws/build.rs"), path("/ws/crates/c/lib.rs")];
    assert!(packages_for_files(&files, &dirs).is_empty());
}

#[test]
fn prefix_of_a_name_is_not_a_directory_prefix() {
    let dirs = vec![dir("a", "/ws/a")];
    let files = vec![path("/ws/ab/lib.rs")];
    assert!(packages_for_files(&files, &dirs).is_empty());
}

#[test]
fn root_package_owns_its_files() {
    let dirs = vec![dir("root", "/ws"), dir("a", "/ws/crates/a")];
    let files = vec![path("/ws/src/main.rs"), path("/ws/crates/a/src/lib.rs")];
    assert_eq!(packages_for_files(&files, &dirs), vec!["a".to_string(), "root".to_string()]);
    let files = vec![path("/ws/build.rs")];
    assert_eq!(packages_for_files(&files, &dirs), vec!["root".to_string()]);
}

#[test]
fn innermost_package_owns_a_file() {
    let dirs = vec![dir("outer", "/ws/a"), dir("inner", "/ws/a/b")];
    let files = vec![path("/ws/a/c.rs")];
    assert_eq!(packages_for_files(&files, &dirs), vec!["outer".to_string()]);
    let files = vec![path("/ws/a/b/x.rs")];
    assert_eq!(packages_for_files(&files, &dirs), vec!["inner".to_string()]);
    let dirs = vec![dir("inner", "/ws/a/b"), dir("outer", "/ws/a")];
    assert_eq!(packages_for_files(&files, &dirs), vec!["inner".to_string()]);
}

#[test]
fn order_and_repetition_of_files_do_not_matter() {
    let dirs = vec![dir("a", "/ws/crates/a"), dir("b", "/ws/crates/b")];
    let f1 = vec![path("/ws/crates/a/x.rs"), path("/ws/crates/b/y.rs")];
    let f2 = vec![path("/ws/crates/b/y.rs"), path("/ws/crates/a/x.rs"), path("/ws/crates/b/y.rs")];
    assert_eq!(packages_for_files(&f1, &dirs), packages_for_files(&f2, &dirs));
}

#[test]
fn no_files_no_packages() {
    let dirs = vec![dir("a", "/ws/crates/a")];
    assert!(packages_for_files(&Vec::new(), &dirs).is_empty());
}

#[test]
fn names_compare_by_bytes() {
    assert_eq!(compare_names(&"a".to_string(), &"b".to_string()), -1);
    assert_eq!(compare_names(&"B".to_string(), &"a".to_string()), -1);
    assert_eq!(compare_names(&"ab".to_string(), &"a".to_string()), 1);
    assert_eq!(compare_names(&"x".to_string(), &"x".to_string()), 0);
}

#[test]
fn order_of_packages_does_not_matter() {
    let dirs1 = vec![dir("root", "/ws"), dir("a", "/ws/crates/a"), dir("b", "/ws/crates/b")];
    let dirs2 = vec![dir("b", "/ws/crates/b"), dir("root", "/ws"), dir("a", "/ws/crates/a")];
    let files = vec![path("/ws/src/main.rs"), path("/ws/crates/a/src/lib.rs"), path("/ws/crates/b/src/lib.rs")];
    let names = packages_for_files(&files, &dirs1);
    assert_eq!(names, vec!["a".to_string(), "b".to_string(), "root".to_string()]);
    assert_eq!(packages_for_files(&files, &dirs2), names);
}
