use nr_spec_md::path::Path;

#[test]
fn join_puts_a_separator_between() {
    assert_eq!(Path::new("src").join("a.md").as_str(), "src/a.md");
    assert_eq!(Path::new("src/").join("a.md").as_str(), "src/a.md");
    assert_eq!(Path::new("").join("a.md").as_str(), "a.md");
    assert_eq!(Path::new("src").join("").as_str(), "src/");
    assert_eq!(Path::new("src").join("sub/dir").join("index.md").as_str(), "src/sub/dir/index.md");
}

#[test]
fn join_of_a_rooted_path_is_that_path() {
    assert_eq!(Path::new("src").join("/etc/a.md").as_str(), "/etc/a.md");
}

#[test]
fn parent_drops_the_last_component() {
    assert_eq!(Path::new("a/b/index.md").parent(), Some(Path::new("a/b")));
    assert_eq!(Path::new("index.md").parent(), Some(Path::new("")));
    assert_eq!(Path::new("/index.md").parent(), Some(Path::new("/")));
    assert_eq!(Path::new("").parent(), None);
    assert_eq!(Path::new("/").parent(), None);
}

#[test]
fn file_name_is_the_last_component() {
    assert_eq!(Path::new("a/b/index.md").file_name(), Some("index.md"));
    assert_eq!(Path::new("index.md").file_name(), Some("index.md"));
    assert_eq!(Path::new("a/").file_name(), None);
    assert_eq!(Path::new("a/..").file_name(), None);
    assert_eq!(Path::new("a/.").file_name(), None);
    assert_eq!(Path::new("").file_name(), None);
}

#[test]
fn extension_is_what_follows_the_last_dot() {
    assert_eq!(Path::new("a/b.md").extension(), Some("md"));
    assert_eq!(Path::new("a/b.tar.gz").extension(), Some("gz"));
    assert_eq!(Path::new("a.d/b").extension(), None);
    assert_eq!(Path::new("a/.md").extension(), None);
    assert_eq!(Path::new("a/..md").extension(), Some("md"));
    assert_eq!(Path::new("a/b.").extension(), Some(""));
    assert_eq!(Path::new("a/").extension(), None);
}

#[test]
fn components_are_the_parts_that_count() {
    assert_eq!(Path::new("a/b/c.md").components(), vec!["a", "b", "c.md"]);
    assert_eq!(Path::new("/a//b/").components(), vec!["a", "b"]);
    assert_eq!(Path::new("a/./b/.").components(), vec!["a", "b"]);
    assert_eq!(Path::new("./a").components(), vec![".", "a"]);
    assert_eq!(Path::new(".").components(), vec!["."]);
    assert_eq!(Path::new("/./a").components(), vec!["a"]);
    assert_eq!(Path::new("a/../b").components(), vec!["a", "..", "b"]);
    assert_eq!(Path::new("").components(), Vec::<&str>::new());
    assert_eq!(Path::new("///").components(), Vec::<&str>::new());
}

#[test]
fn parent_components_are_resolved() {
    assert_eq!(Path::new("a/b/../c").resolved(), vec!["a", "c"]);
    assert_eq!(Path::new("a/..").resolved(), Vec::<&str>::new());
    assert_eq!(Path::new("../a").resolved(), vec!["..", "a"]);
    assert_eq!(Path::new("a/../../b").resolved(), vec!["..", "b"]);
    assert_eq!(Path::new("../..").resolved(), vec!["..", ".."]);
    assert_eq!(Path::new("/../a").resolved(), vec!["a"]);
    assert_eq!(Path::new("/a/../..").resolved(), Vec::<&str>::new());
    assert_eq!(Path::new("./..").resolved(), vec![".", ".."]);
    assert_eq!(Path::new("./a/..").resolved(), vec!["."]);
    assert_eq!(Path::new("a/b/c").resolved(), vec!["a", "b", "c"]);
}

#[test]
fn rooted_paths_start_with_a_separator() {
    assert!(Path::new("/a").is_rooted());
    assert!(Path::new("/").is_rooted());
    assert!(!Path::new("a/").is_rooted());
    assert!(!Path::new("").is_rooted());
}

#[test]
fn paths_are_compared_by_their_components() {
    assert!(Path::new("a/b.md").same_as(&Path::new_owned("a/b.md".to_string())));
    assert!(Path::new("a/b.md").same_as(&Path::new("a//b.md")));
    assert!(Path::new("a/b").same_as(&Path::new("a/./b/")));
    assert!(Path::new("./a").same_as(&Path::new(".//a/.")));
    assert!(!Path::new("a/b.md").same_as(&Path::new("/a/b.md")));
    assert!(!Path::new("a/b.md").same_as(&Path::new("./a/b.md")));
    assert!(Path::new("a/b.md").same_as(&Path::new("a/c/../b.md")));
    assert!(Path::new("/a").same_as(&Path::new("/../a/b/c/../..")));
    assert!(!Path::new("a").same_as(&Path::new("../a")));
    assert!(!Path::new("../a").same_as(&Path::new("../../a")));
    assert!(Path::new("../a").same_as(&Path::new("../b/../a")));
    assert!(!Path::new("a/b.md").same_as(&Path::new("a/b")));
    assert!(!Path::new("a/b").same_as(&Path::new("a")));
    assert!(!Path::new("").same_as(&Path::new(".")));
    assert!(Path::new("").same_as(&Path::new("")));
    assert_eq!(Path::new("a/b"), Path::new("a//b"));
    assert_ne!(Path::new("a/b"), Path::new("a/B"));
    assert_eq!(Path::new("a").clone().as_str(), "a");
}
