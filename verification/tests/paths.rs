use clipped::paths::{compare_components, FsPath, PathComponent};

fn path(s: &str) -> FsPath {
    let mut components = Vec::new();
    if s.starts_with('/') {
        components.push(PathComponent::RootDir);
    }
    for (i, seg) in s.split('/').enumerate() {
        match seg {
            "" => {}
            "." if i == 0 => components.push(PathComponent::CurDir),
            "." => {}
            ".." => components.push(PathComponent::ParentDir),
            name => components.push(PathComponent::Normal(name.to_string())),
        }
    }
    FsPath { components }
}

fn names(p: &FsPath) -> Vec<String> {
    p.components
        .iter()
        .map(|c| match c {
            PathComponent::RootDir => "/".to_string(),
            PathComponent::CurDir => ".".to_string(),
            PathComponent::ParentDir => "..".to_string(),
            PathComponent::Normal(n) => n.clone(),
        })
        .collect()
}

#[test]
fn join_appends_relative_file() {
    let joined = path("/ws").join(&path("src/lib.rs"));
    assert_eq!(names(&joined), vec!["/", "ws", "src", "lib.rs"]);
}

#[test]
fn join_drops_leading_current_dir() {
    let joined = path("/ws").join(&path("./src/lib.rs"));
    assert_eq!(names(&joined), vec!["/", "ws", "src", "lib.rs"]);
}

#[test]
fn join_keeps_parent_dir() {
    let joined = path("/ws").join(&path("../other.rs"));
    assert_eq!(names(&joined), vec!["/", "ws", "..", "other.rs"]);
}

#[test]
fn join_absolute_file_replaces_base() {
    let joined = path("/ws").join(&path("/etc/passwd"));
    assert_eq!(names(&joined), vec!["/", "etc", "passwd"]);
}

#[test]
fn join_onto_empty_base_keeps_file() {
    let joined = FsPath::empty().join(&path("./a.rs"));
    assert_eq!(names(&joined), vec![".", "a.rs"]);
}

#[test]
fn starts_with_is_component_wise() {
    assert!(path("/ws/a/src/lib.rs").starts_with(&path("/ws/a")));
    assert!(!path("/ws/ab/src/lib.rs").starts_with(&path("/ws/a")));
    assert!(path("/ws").starts_with(&path("/ws")));
    assert!(!path("/ws").starts_with(&path("/ws/a")));
    assert!(path("/ws").starts_with(&FsPath::empty()));
}

#[test]
fn compare_orders_by_components() {
    assert_eq!(path("/ws/a").compare(&path("/ws/b")), -1);
    assert_eq!(path("/ws/b").compare(&path("/ws/a")), 1);
    assert_eq!(path("/ws/a").compare(&path("/ws/a")), 0);
    // a prefix sorts first
    assert_eq!(path("/ws/a").compare(&path("/ws/a/b")), -1);
    // components, not bytes: "a/b" sorts before "a-b" although '/' > '-'
    assert_eq!(path("/ws/a/b").compare(&path("/ws/a-b")), -1);
    // the root sorts before any name
    assert_eq!(path("/a").compare(&path("a")), -1);
}

#[test]
fn compare_agrees_with_std_path() {
    let samples = ["/ws/a", "/ws/a/b", "/ws/a-b", "/ws/b", "/x", "/ws", "/ws/ä", "/ws/z"];
    for x in samples {
        for y in samples {
            let expected = match std::path::Path::new(x).cmp(std::path::Path::new(y)) {
                std::cmp::Ordering::Less => -1,
                std::cmp::Ordering::Equal => 0,
                std::cmp::Ordering::Greater => 1,
            };
            assert_eq!(path(x).compare(&path(y)), expected, "{x} vs {y}");
        }
    }
}

#[test]
fn component_kinds_are_ordered() {
    let root = PathComponent::RootDir;
    let cur = PathComponent::CurDir;
    let parent = PathComponent::ParentDir;
    let name = PathComponent::Normal("a".to_string());
    assert_eq!(compare_components(&root, &cur), -1);
    assert_eq!(compare_components(&cur, &parent), -1);
    assert_eq!(compare_components(&parent, &name), -1);
    assert_eq!(compare_components(&name, &root), 1);
}

#[test]
fn same_as_compares_components() {
    assert!(path("/ws/a").same_as(&path("/ws//a/")));
    assert!(!path("/ws/a").same_as(&path("/ws/b")));
}

#[test]
fn parent_drops_last_component() {
    let p = path("/ws/crates/a/Cargo.toml").parent().unwrap();
    assert_eq!(names(&p), vec!["/", "ws", "crates", "a"]);
    assert!(path("/").parent().is_none());
    assert!(FsPath::empty().parent().is_none());
    assert_eq!(names(&path("a").parent().unwrap()), Vec::<String>::new());
}

#[test]
fn clone_keeps_components() {
    let p = path("/ws/a");
    assert!(p.clone().same_as(&p));
    assert_eq!(p.len(), 3);
}
