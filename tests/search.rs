use include_dir::{Dir, DirEntry, File, Pattern, PatternErrorKind};

fn file(path: &str, contents: &[u8]) -> File {
    File::new(path.to_string(), contents.to_vec())
}

fn sample() -> Dir {
    let main = file("src/main.rs", b"fn main(){}");
    let src = Dir::new("src".to_string(), vec![main], vec![]);
    Dir::new("".to_string(), vec![file("README.md", b"hello")], vec![src])
}

fn nested() -> Dir {
    let deep = Dir::new(
        "a/b/c".to_string(),
        vec![file("a/b/c/deep.txt", b"deep")],
        vec![],
    );
    let b = Dir::new("a/b".to_string(), vec![file("a/b/mid.txt", b"mid")], vec![deep]);
    let a = Dir::new("a".to_string(), vec![file("a/top.txt", b"top")], vec![b]);
    let x = Dir::new("x".to_string(), vec![file("x/y.rs", b"y")], vec![]);
    Dir::new(
        "".to_string(),
        vec![file("root.txt", b"root"), file("notes.md", b"n")],
        vec![a, x],
    )
}

fn paths(entries: &[DirEntry]) -> Vec<String> {
    entries.iter().map(|e| e.path().to_string()).collect()
}

#[test]
fn src_star_yields_main_rs_only() {
    let root = sample();
    let found = root.find("src/*").unwrap();
    assert_eq!(found.len(), 1);
    match &found[0] {
        DirEntry::File(f) => {
            assert_eq!(f.path(), "src/main.rs");
            assert_eq!(f.contents(), b"fn main(){}");
        }
        DirEntry::Dir(_) => panic!("expected a file"),
    }
}

#[test]
fn every_path_pattern_walks_in_pre_order() {
    let root = nested();
    let found = root.find("**/*").unwrap();
    assert_eq!(
        paths(&found),
        vec![
            "root.txt",
            "notes.md",
            "a",
            "a/top.txt",
            "a/b",
            "a/b/mid.txt",
            "a/b/c",
            "a/b/c/deep.txt",
            "x",
            "x/y.rs",
        ]
    );
    assert!(matches!(found[2], DirEntry::Dir(_)));
    assert!(matches!(found[3], DirEntry::File(_)));
}

#[test]
fn star_does_not_cross_separators() {
    let root = nested();
    let found = root.find("*.txt").unwrap();
    assert_eq!(paths(&found), vec!["root.txt"]);
    for p in paths(&found) {
        assert!(p.ends_with(".txt") && !p.contains('/'));
    }
}

#[test]
fn recursive_pattern_finds_nested_txt() {
    let root = nested();
    let found = root.find("**/*.txt").unwrap();
    assert_eq!(
        paths(&found),
        vec!["root.txt", "a/top.txt", "a/b/mid.txt", "a/b/c/deep.txt"]
    );
    let under_a = root.find("a/**").unwrap();
    assert_eq!(
        paths(&under_a),
        vec!["a/top.txt", "a/b", "a/b/mid.txt", "a/b/c", "a/b/c/deep.txt"]
    );
}

#[test]
fn question_mark_and_classes() {
    let root = nested();
    assert_eq!(paths(&root.find("?").unwrap()), vec!["a", "x"]);
    assert_eq!(paths(&root.find("[a-c]").unwrap()), vec!["a"]);
    assert_eq!(paths(&root.find("[!a]").unwrap()), vec!["x"]);
    assert_eq!(paths(&root.find("x/[xyz].rs").unwrap()), vec!["x/y.rs"]);
    assert_eq!(paths(&root.find("[]]").unwrap()), Vec::<String>::new());
}

#[test]
fn no_match_gives_empty_result() {
    let root = nested();
    assert!(root.find("*.zip").unwrap().is_empty());
}

#[test]
fn unclosed_class_is_an_error() {
    let root = nested();
    let e = root.find("a/[bc").err().unwrap();
    assert_eq!(e.kind, PatternErrorKind::UnclosedClass);
    assert_eq!(e.pos, 2);
    let e = Pattern::new("[!").err().unwrap();
    assert_eq!(e.kind, PatternErrorKind::UnclosedClass);
    assert_eq!(e.pos, 0);
}

#[test]
fn recursive_wildcard_must_be_a_component() {
    let e = Pattern::new("a**").err().unwrap();
    assert_eq!(e.kind, PatternErrorKind::RecursiveWildcard);
    assert_eq!(e.pos, 1);
    let e = Pattern::new("**a").err().unwrap();
    assert_eq!(e.kind, PatternErrorKind::RecursiveWildcard);
    assert_eq!(e.pos, 0);
    assert!(Pattern::new("a/**/b").is_ok());
}

#[test]
fn pattern_matches_whole_paths() {
    let p = Pattern::new("*.rs").unwrap();
    assert!(p.matches("main.rs"));
    assert!(p.matches(".rs"));
    assert!(!p.matches("src/main.rs"));
    assert!(!p.matches("main.rsx"));
    let q = Pattern::new("**/*.rs").unwrap();
    assert!(q.matches("main.rs"));
    assert!(q.matches("src/bin/main.rs"));
    assert!(!q.matches("src/main.txt"));
    let r = Pattern::new("a?c").unwrap();
    assert!(r.matches("abc"));
    assert!(!r.matches("a/c"));
    assert!(!r.matches("ac"));
}
