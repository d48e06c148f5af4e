use arena_common::paths::{
    begins_anchored, copy_path, entry_name, make_relative_path, make_relative_path_with_base,
    parts_of, PathPart,
};

fn normal(name: &str) -> PathPart {
    PathPart::Normal(name.to_string())
}

fn absolute(names: &[&str]) -> Vec<PathPart> {
    let mut parts = vec![PathPart::RootDir];
    for name in names {
        parts.push(normal(name));
    }
    parts
}

fn relative(names: &[&str]) -> Vec<PathPart> {
    names.iter().map(|name| normal(name)).collect()
}

fn same(left: &[PathPart], right: &[PathPart]) -> bool {
    left.len() == right.len() && left.iter().zip(right.iter()).all(|(a, b)| a.same_as(b))
}

#[test]
fn relative_path_inside_root() {
    let root = absolute(&["a", "b"]);
    let current = absolute(&["a", "b", "c", "d.txt"]);
    let result = make_relative_path(&root, &current);
    assert!(same(&result, &relative(&["c", "d.txt"])));
    assert_eq!(entry_name(&result), "c/d.txt");
}

#[test]
fn relative_path_outside_root_keeps_every_component() {
    let root = relative(&["a", "b"]);
    let current = absolute(&["x", "y", "z.txt"]);
    let result = make_relative_path(&root, &current);
    assert!(same(&result, &current));
}

#[test]
fn relative_path_after_mismatch_keeps_the_rest() {
    let root = absolute(&["a", "b"]);
    let current = absolute(&["a", "c", "d"]);
    let result = make_relative_path(&root, &current);
    assert!(same(&result, &relative(&["c", "d"])));
}

#[test]
fn relative_path_of_root_itself_is_empty() {
    let root = absolute(&["a", "b"]);
    let result = make_relative_path(&root, &root);
    assert!(result.is_empty());
    assert_eq!(entry_name(&result), "");
}

#[test]
fn relative_path_of_shorter_current_is_empty() {
    let root = absolute(&["a", "b", "c"]);
    let current = absolute(&["a", "b"]);
    assert!(make_relative_path(&root, &current).is_empty());
}

#[test]
fn relative_path_with_empty_root_is_current() {
    let current = absolute(&["a"]);
    let result = make_relative_path(&Vec::new(), &current);
    assert!(same(&result, &current));
}

#[test]
fn relative_path_with_base_is_prefixed() {
    let root = absolute(&["a", "b"]);
    let current = absolute(&["a", "b", "c", "d.txt"]);
    let result = make_relative_path_with_base("bots", &root, &current);
    assert!(same(&result, &relative(&["bots", "c", "d.txt"])));
    assert_eq!(entry_name(&result), "bots/c/d.txt");
}

#[test]
fn relative_path_with_base_of_root_is_base_alone() {
    let root = absolute(&["a", "b"]);
    let result = make_relative_path_with_base("bots", &root, &root);
    assert!(same(&result, &relative(&["bots"])));
    assert_eq!(entry_name(&result), "bots");
}

#[test]
fn entry_name_leaves_out_what_is_not_a_name() {
    let parts = vec![
        PathPart::Prefix("C:".to_string()),
        PathPart::RootDir,
        normal("a"),
        PathPart::CurDir,
        PathPart::ParentDir,
        normal("b"),
    ];
    assert_eq!(entry_name(&parts), "a/b");
    assert_eq!(entry_name(&Vec::new()), "");
    assert_eq!(entry_name(&vec![PathPart::RootDir]), "");
}

#[test]
fn components_compare_by_kind_and_text() {
    assert!(normal("a").same_as(&normal("a")));
    assert!(!normal("a").same_as(&normal("b")));
    assert!(!normal("a").same_as(&PathPart::Prefix("a".to_string())));
    assert!(PathPart::RootDir.same_as(&PathPart::RootDir));
    assert!(!PathPart::RootDir.same_as(&PathPart::CurDir));
    assert!(PathPart::ParentDir.same_as(&PathPart::ParentDir));
    assert!(PathPart::Prefix("C:".to_string()).same_as(&PathPart::Prefix("C:".to_string())));
}

#[test]
fn copy_path_keeps_every_component() {
    let path = absolute(&["a", "b"]);
    assert!(same(&copy_path(&path), &path));
    assert!(same(&path.clone(), &path));
}

#[test]
fn empty_base_adds_nothing() {
    let root = absolute(&["a", "b"]);
    let current = absolute(&["a", "b", "c", "d.txt"]);
    let with_base = make_relative_path_with_base("", &root, &current);
    assert!(same(&with_base, &make_relative_path(&root, &current)));
    assert_eq!(entry_name(&with_base), "c/d.txt");
}

#[test]
fn base_is_read_part_by_part() {
    let root = absolute(&["a"]);
    let current = absolute(&["a", "x"]);
    for (base, name) in [
        ("bots", "bots/x"),
        ("bots/", "bots/x"),
        ("bots//", "bots/x"),
        ("bots/one", "bots/one/x"),
        ("bots//one/", "bots/one/x"),
        ("/bots", "bots/x"),
        ("./bots", "bots/x"),
        ("bots/./one", "bots/one/x"),
        ("../bots", "bots/x"),
        (".", "x"),
        ("/", "x"),
    ] {
        let result = make_relative_path_with_base(base, &root, &current);
        assert_eq!(entry_name(&result), name, "{base:?}");
    }
    let result = make_relative_path_with_base("bots/one", &root, &current);
    assert!(same(&result, &relative(&["bots", "one", "x"])));
}

#[test]
fn anchored_relative_path_stands_alone() {
    let current = absolute(&["x"]);
    let result = make_relative_path_with_base("bots", &Vec::new(), &current);
    assert!(same(&result, &current));
    assert!(begins_anchored(&result));
    assert!(begins_anchored(&vec![PathPart::Prefix("C:".to_string())]));
    assert!(!begins_anchored(&relative(&["x"])));
    assert!(!begins_anchored(&Vec::new()));
}

#[test]
fn text_is_split_at_slashes() {
    assert!(parts_of("").is_empty());
    assert!(same(&parts_of("a"), &relative(&["a"])));
    assert!(same(&parts_of("a/b.txt"), &relative(&["a", "b.txt"])));
    assert!(same(&parts_of("/a//b/"), &absolute(&["a", "b"])));
    assert!(same(&parts_of("/"), &absolute(&[])));
    assert!(same(&parts_of("."), &vec![PathPart::CurDir]));
    assert!(same(&parts_of("./a/."), &vec![PathPart::CurDir, normal("a")]));
    assert!(same(&parts_of("/./a"), &absolute(&["a"])));
    assert!(same(&parts_of("a/../b"), &vec![normal("a"), PathPart::ParentDir, normal("b")]));
    assert!(same(&parts_of(".."), &vec![PathPart::ParentDir]));
    assert!(same(&parts_of("..."), &relative(&["..."])));
    assert!(same(&parts_of(".a"), &relative(&[".a"])));
    assert!(same(&parts_of("\u{e9}t\u{e9}/\u{1f600}"), &relative(&["\u{e9}t\u{e9}", "\u{1f600}"])));
}

#[test]
fn text_is_split_as_the_standard_library_splits_it() {
    for text in ["", "a", "/a//b/", ".", "./a/.", "/./a", "a/../b", "..", "/", "//", "a/./b", "./"] {
        let expected: Vec<PathPart> = std::path::Path::new(text)
            .components()
            .map(|component| match component {
                std::path::Component::RootDir => PathPart::RootDir,
                std::path::Component::CurDir => PathPart::CurDir,
                std::path::Component::ParentDir => PathPart::ParentDir,
                std::path::Component::Normal(name) => normal(name.to_str().unwrap()),
                std::path::Component::Prefix(_) => unreachable!(),
            })
            .collect();
        assert!(same(&parts_of(text), &expected), "{text:?}");
    }
}
