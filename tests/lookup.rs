use include_dir::{Dir, File};

fn file(path: &str, contents: &[u8]) -> File {
    File::new(path.to_string(), contents.to_vec())
}

fn sample() -> Dir {
    let main = file("src/main.rs", b"fn main(){}");
    let src = Dir::new("src".to_string(), vec![main], vec![]);
    Dir::new("".to_string(), vec![file("README.md", b"hello")], vec![src])
}

fn nested() -> Dir {
    let deep = Dir::new(
        "a/b/c".to_string(),
        vec![file("a/b/c/deep.txt", b"deep")],
        vec![],
    );
    let b = Dir::new("a/b".to_string(), vec![file("a/b/mid.txt", b"mid")], vec![deep]);
    let a = Dir::new("a".to_string(), vec![file("a/top.txt", b"top")], vec![b]);
    let x = Dir::new("x".to_string(), vec![file("x/y.rs", b"y")], vec![]);
    Dir::new("".to_string(), vec![file("root.txt", b"root")], vec![a, x])
}

#[test]
fn readme_and_src_are_found() {
    let root = sample();
    let readme = root.get_file("README.md").unwrap();
    assert_eq!(readme.contents(), b"hello");
    assert_eq!(readme.path(), "README.md");
    let src = root.get_dir("src").unwrap();
    assert_eq!(src.path(), "src");
    assert_eq!(src.files().len(), 1);
    assert_eq!(src.files()[0].contents(), b"fn main(){}");
}

#[test]
fn nested_file_is_found_by_full_path() {
    let root = sample();
    let main = root.get_file("src/main.rs").unwrap();
    assert_eq!(main.contents(), b"fn main(){}");
    assert!(root.get_file("main.rs").is_none());
}

#[test]
fn absent_paths_are_not_found() {
    let root = nested();
    for p in ["missing", "a/missing.txt", "a/b/c/d", "b", "top.txt", "a/b/c/deep"] {
        assert!(root.get_file(p).is_none(), "{}", p);
        assert!(root.get_dir(p).is_none(), "{}", p);
        assert!(!root.contains(p), "{}", p);
    }
}

#[test]
fn every_present_entry_is_found() {
    let root = nested();
    for (p, c) in [
        ("root.txt", &b"root"[..]),
        ("a/top.txt", b"top"),
        ("a/b/mid.txt", b"mid"),
        ("a/b/c/deep.txt", b"deep"),
        ("x/y.rs", b"y"),
    ] {
        let f = root.get_file(p).unwrap();
        assert_eq!(f.path(), p);
        assert_eq!(f.contents(), c);
        assert!(root.contains(p));
        assert!(root.get_dir(p).is_none());
    }
    for p in ["a", "a/b", "a/b/c", "x"] {
        let d = root.get_dir(p).unwrap();
        assert_eq!(d.path(), p);
        assert!(root.contains(p));
        assert!(root.get_file(p).is_none());
    }
}

#[test]
fn empty_path_finds_nothing() {
    let root = nested();
    assert!(root.get_file("").is_none());
    assert!(root.get_dir("").is_none());
    assert!(!root.contains(""));
}

#[test]
fn lookup_compares_path_components() {
    let root = nested();
    assert_eq!(root.get_file("a//top.txt").unwrap().path(), "a/top.txt");
    assert_eq!(root.get_file("a/./b/mid.txt").unwrap().path(), "a/b/mid.txt");
    assert_eq!(root.get_dir("a/b/").unwrap().path(), "a/b");
    assert!(root.get_file("./root.txt").is_none());
    assert!(root.get_file("/root.txt").is_none());
}

#[test]
fn first_match_wins_for_duplicate_paths() {
    let first = Dir::new("d".to_string(), vec![file("d/f", b"one")], vec![]);
    let second = Dir::new("e".to_string(), vec![file("d/f", b"two")], vec![]);
    let root = Dir::new("".to_string(), vec![], vec![first, second]);
    assert_eq!(root.get_file("d/f").unwrap().contents(), b"one");
    let direct = Dir::new(
        "".to_string(),
        vec![file("d/f", b"direct")],
        vec![Dir::new("d".to_string(), vec![file("d/f", b"nested")], vec![])],
    );
    assert_eq!(direct.get_file("d/f").unwrap().contents(), b"direct");
}

#[test]
fn dir_is_checked_before_its_subtree() {
    let inner = Dir::new("s".to_string(), vec![], vec![]);
    let outer = Dir::new("s".to_string(), vec![file("s/marker", b"outer")], vec![inner]);
    let root = Dir::new("".to_string(), vec![], vec![outer]);
    assert_eq!(root.get_dir("s").unwrap().files().len(), 1);
}

#[test]
fn accessors_return_children_in_order() {
    let root = nested();
    assert_eq!(root.path(), "");
    let names: Vec<&str> = root.dirs().iter().map(|d| d.path()).collect();
    assert_eq!(names, vec!["a", "x"]);
    assert_eq!(root.files()[0].path(), "root.txt");
}
