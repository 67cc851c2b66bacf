use include_dir::{base_name_of, path_components, same_path, Dir, ExtractStep, File};

fn file(path: &str, contents: &[u8]) -> File {
    File::new(path.to_string(), contents.to_vec())
}

fn text(segments: &[Vec<char>]) -> Vec<String> {
    segments.iter().map(|s| s.iter().collect()).collect()
}

fn describe(steps: &[ExtractStep]) -> Vec<(String, Vec<String>, Vec<u8>)> {
    steps
        .iter()
        .map(|s| match s {
            ExtractStep::CreateDir(at) => ("dir".to_string(), text(at), vec![]),
            ExtractStep::WriteFile(at, f) => ("file".to_string(), text(at), f.contents().to_vec()),
        })
        .collect()
}

fn strings(v: &[&str]) -> Vec<String> {
    v.iter().map(|s| s.to_string()).collect()
}

#[test]
fn readme_and_src_extract_plan() {
    let main = file("src/main.rs", b"fn main(){}");
    let src = Dir::new("src".to_string(), vec![main], vec![]);
    let root = Dir::new("".to_string(), vec![file("README.md", b"hello")], vec![src]);
    assert_eq!(
        describe(&root.extract_plan()),
        vec![
            ("dir".to_string(), strings(&[]), vec![]),
            ("file".to_string(), strings(&["README.md"]), b"hello".to_vec()),
            ("dir".to_string(), strings(&["src"]), vec![]),
            ("file".to_string(), strings(&["src", "main.rs"]), b"fn main(){}".to_vec()),
        ]
    );
}

#[test]
fn files_land_under_their_base_names() {
    let a = Dir::new("a".to_string(), vec![file("a/b.txt", b"hi")], vec![]);
    assert_eq!(
        describe(&a.extract_plan()),
        vec![
            ("dir".to_string(), strings(&[]), vec![]),
            ("file".to_string(), strings(&["b.txt"]), b"hi".to_vec()),
        ]
    );
}

#[test]
fn plan_is_the_same_each_time() {
    let c = Dir::new("a/c".to_string(), vec![file("a/c/d", b"d")], vec![]);
    let a = Dir::new("a".to_string(), vec![file("a/b.txt", b"hi")], vec![c]);
    let root = Dir::new("".to_string(), vec![], vec![a]);
    let first = describe(&root.extract_plan());
    let second = describe(&root.extract_plan());
    assert_eq!(first, second);
    assert_eq!(
        first,
        vec![
            ("dir".to_string(), strings(&[]), vec![]),
            ("dir".to_string(), strings(&["a"]), vec![]),
            ("file".to_string(), strings(&["a", "b.txt"]), b"hi".to_vec()),
            ("dir".to_string(), strings(&["a", "c"]), vec![]),
            ("file".to_string(), strings(&["a", "c", "d"]), b"d".to_vec()),
        ]
    );
}

#[test]
fn base_names() {
    let name = |p: &str| base_name_of(p).into_iter().collect::<String>();
    assert_eq!(name("a/b.txt"), "b.txt");
    assert_eq!(name("a/b/"), "b");
    assert_eq!(name("top"), "top");
    assert_eq!(name("a/."), "a");
    assert_eq!(name(""), "");
    assert_eq!(name("/"), "");
}

#[test]
fn components_of_paths() {
    assert_eq!(text(&path_components("a//b/./c/")), strings(&["a", "b", "c"]));
    assert_eq!(text(&path_components("./a")), strings(&[".", "a"]));
    assert_eq!(text(&path_components("/a/..")), strings(&["/", "a", ".."]));
    assert_eq!(text(&path_components("")), Vec::<String>::new());
    assert!(same_path("a/b", "a//b/"));
    assert!(!same_path("a/b", "/a/b"));
    assert!(!same_path("a", "./a"));
}
