use nr_spec_md::front_matter::{DecodeError, FrontMatter, FrontMatterError, NavElem};
use nr_spec_md::md::{BlockError, TitleError};
use nr_spec_md::nav::{NavCategory, NavFolder, NavItem, NavPage};
use nr_spec_md::path::Path;
use nr_spec_md::process::{
    ensure_page_has_no_nav, insert_sorted, process_category, process_folder, process_include,
    process_item, process_page, resolve_name, ErrorKind, ProcessError, MAX_DEPTH,
};
use nr_spec_md::source::{SourceEntry, SourceTree};

fn file(path: &str, content: &str) -> SourceEntry {
    SourceEntry::File { path: Path::new(path), content: Some(content.to_string()) }
}

fn dir(path: &str, entries: Vec<SourceEntry>) -> SourceEntry {
    SourceEntry::Dir { path: Path::new(path), entries }
}

fn tree(entries: Vec<SourceEntry>) -> SourceTree {
    SourceTree { entries: vec![dir("src", entries)] }
}

fn error(kind: ErrorKind, path: &str) -> ProcessError {
    ProcessError { kind, path: Path::new(path) }
}

fn plain_page(path: &str, name: &str, text: &str) -> NavPage {
    NavPage {
        path: Path::new(path),
        name: name.to_string(),
        fm: FrontMatter::default(),
        raw_content: text.to_string(),
        built_content: text.to_string(),
        fixed_content: text.to_string(),
    }
}

fn names(items: &[NavItem]) -> Vec<String> {
    items
        .iter()
        .map(|item| match item {
            NavItem::Page(p) => p.name.clone(),
            NavItem::Folder(f) => f.index.name.clone(),
            NavItem::Category(c) => c.name.clone(),
        })
        .collect()
}

#[test]
fn name_of_a_page() {
    let s = |x: &str| Some(x.to_string());
    assert_eq!(resolve_name(None, None, "Title".to_string()), s("Title"));
    assert_eq!(resolve_name(None, s("Given"), "Title".to_string()), s("Given"));
    assert_eq!(resolve_name(s("Own"), None, "Title".to_string()), s("Own"));
    assert_eq!(resolve_name(s("Own"), s("Given"), "Title".to_string()), None);
    assert_eq!(resolve_name(s("Same"), s("Same"), "Title".to_string()), None);
}

#[test]
fn page_of_a_plain_document() {
    let fs = tree(vec![file("src/a.md", "# Alpha\n\ntext\n")]);
    assert_eq!(
        process_page(&fs, &Path::new("src/a.md"), None),
        Ok(plain_page("src/a.md", "Alpha", "# Alpha\n\ntext\n"))
    );
}

#[test]
fn page_takes_the_name_of_its_entry() {
    let fs = tree(vec![file("src/a.md", "# Alpha\n")]);
    let page = process_page(&fs, &Path::new("src/a.md"), Some("Given".to_string())).unwrap();
    assert_eq!(page.name, "Given");
}

#[test]
fn page_takes_its_own_name_first() {
    let fs = tree(vec![file("src/a.md", "---\nname: Own\n---\n# Alpha\n")]);
    let page = process_page(&fs, &Path::new("src/a.md"), None).unwrap();
    assert_eq!(page.name, "Own");
    assert_eq!(page.fm, FrontMatter { name: Some("Own".to_string()), nav: vec![] });
    assert_eq!(page.raw_content, "---\nname: Own\n---\n# Alpha\n");
    assert_eq!(page.built_content, "\n# Alpha\n");
    assert_eq!(page.fixed_content, "---\nname: Own\n---\n# Alpha\n");
}

#[test]
fn page_with_two_names_fails() {
    let fs = tree(vec![file("src/a.md", "---\nname: Own\n---\n# Alpha\n")]);
    assert_eq!(
        process_page(&fs, &Path::new("src/a.md"), Some("Given".to_string())),
        Err(error(ErrorKind::NameConflict, "src/a.md"))
    );
    let item = NavElem::File { name: Some("Given".to_string()), path: "a.md".to_string() };
    assert_eq!(
        process_item(&fs, item, &Path::new("src"), MAX_DEPTH, &Vec::new()),
        Err(error(ErrorKind::NameConflict, "src/a.md"))
    );
}

#[test]
fn page_errors() {
    let fs = SourceTree {
        entries: vec![dir(
            "src",
            vec![
                file("src/notitle.md", "text\n"),
                file("src/empty.md", ""),
                file("src/open.md", "---\nname: A\n"),
                file("src/yaml.md", "---\n{\n---\n# A\n"),
                file("src/field.md", "---\nother: 1\n---\n# A\n"),
                SourceEntry::File { path: Path::new("src/binary.md"), content: None },
                dir("src/sub", vec![]),
            ],
        )],
    };
    let page = |p: &str| process_page(&fs, &Path::new(p), None);
    assert_eq!(page("src/missing.md"), Err(error(ErrorKind::Unreadable, "src/missing.md")));
    assert_eq!(page("src/binary.md"), Err(error(ErrorKind::Unreadable, "src/binary.md")));
    assert_eq!(page("src/sub"), Err(error(ErrorKind::Unreadable, "src/sub")));
    assert_eq!(
        page("src/notitle.md"),
        Err(error(ErrorKind::Title(TitleError::NotHeading), "src/notitle.md"))
    );
    assert_eq!(page("src/empty.md"), Err(error(ErrorKind::Title(TitleError::Empty), "src/empty.md")));
    assert_eq!(page("src/open.md"), Err(error(ErrorKind::Block(BlockError::Unclosed), "src/open.md")));
    assert_eq!(page("src/yaml.md"), Err(error(ErrorKind::Block(BlockError::Yaml), "src/yaml.md")));
    assert_eq!(
        page("src/field.md"),
        Err(error(ErrorKind::Block(BlockError::Schema(FrontMatterError::UnknownField)), "src/field.md"))
    );
}

#[test]
fn bad_entry_in_a_document_fails_the_page() {
    let fs = tree(vec![file("src/index.md", "---\nnav:\n  - readme.txt\n---\n# Root\n")]);
    assert_eq!(
        process_folder(&fs, &Path::new("src/index.md"), None, MAX_DEPTH, &Vec::new()),
        Err(error(
            ErrorKind::Block(BlockError::Schema(FrontMatterError::Nav(DecodeError::NotFileOrFolder))),
            "src/index.md"
        ))
    );
}

#[test]
fn page_without_entries_is_kept() {
    let page = plain_page("src/a.md", "A", "# A\n");
    assert_eq!(ensure_page_has_no_nav(plain_page("src/a.md", "A", "# A\n")), Ok(page));
}

#[test]
fn page_with_entries_is_no_leaf() {
    let mut page = plain_page("src/a.md", "A", "# A\n");
    page.fm.nav.push(NavElem::File { name: None, path: "b.md".to_string() });
    assert_eq!(ensure_page_has_no_nav(page), Err(error(ErrorKind::UnexpectedNav, "src/a.md")));
}

#[test]
fn document_with_entries_fails_as_a_file() {
    let fs = tree(vec![
        file("src/index.md", "---\nnav:\n  - a.md\n---\n# Root\n"),
        file("src/a.md", "---\nnav:\n  - b.md\n---\n# A\n"),
        file("src/b.md", "# B\n"),
    ]);
    assert_eq!(
        process_folder(&fs, &Path::new("src/index.md"), None, MAX_DEPTH, &Vec::new()),
        Err(error(ErrorKind::UnexpectedNav, "src/a.md"))
    );
}

#[test]
fn index_with_empty_entries_fails() {
    let fs = tree(vec![file("src/index.md", "---\nnav: []\n---\n# Root\n")]);
    assert_eq!(
        process_folder(&fs, &Path::new("src/index.md"), None, MAX_DEPTH, &Vec::new()),
        Err(error(ErrorKind::MissingNav, "src/index.md"))
    );
}

#[test]
fn index_without_front_matter_fails() {
    let fs = tree(vec![file("src/index.md", "# Root\n")]);
    assert_eq!(
        process_folder(&fs, &Path::new("src/index.md"), None, MAX_DEPTH, &Vec::new()),
        Err(error(ErrorKind::MissingNav, "src/index.md"))
    );
    let fs = tree(vec![file("src/index.md", "---\nname: Root\n---\n# Root\n")]);
    assert_eq!(
        process_folder(&fs, &Path::new("src/index.md"), None, MAX_DEPTH, &Vec::new()),
        Err(error(ErrorKind::MissingNav, "src/index.md"))
    );
}

#[test]
fn folder_with_files_folders_and_categories() {
    let fs = tree(vec![
        file(
            "src/index.md",
            "---\nname: Home\nnav:\n- a.md\n- Sub: sub/\n- Cat:\n  - Bee: b.md\n  - sub/c.md\n- Other: !index other/start.md\n---\n# Root\n",
        ),
        file("src/a.md", "# Alpha\n"),
        file("src/b.md", "# Beta\n"),
        dir(
            "src/sub",
            vec![
                file("src/sub/index.md", "---\nnav:\n- d.md\n---\n# Sub title\n"),
                file("src/sub/c.md", "# Gamma\n"),
                file("src/sub/d.md", "# Delta\n"),
            ],
        ),
        dir(
            "src/other",
            vec![
                file("src/other/start.md", "---\nnav:\n- e.md\n---\n# Start\n"),
                file("src/other/e.md", "# Epsilon\n"),
            ],
        ),
    ]);
    let root = process_folder(&fs, &Path::new("src/index.md"), None, MAX_DEPTH, &Vec::new()).unwrap();
    assert_eq!(root.index.name, "Home");
    assert_eq!(root.index.path, Path::new("src/index.md"));
    assert_eq!(names(&root.children), vec!["Alpha", "Sub", "Cat", "Other"]);
    assert_eq!(root.children[0], NavItem::Page(plain_page("src/a.md", "Alpha", "# Alpha\n")));
    match &root.children[1] {
        NavItem::Folder(sub) => {
            assert_eq!(sub.index.path, Path::new("src/sub/index.md"));
            assert_eq!(sub.children, vec![NavItem::Page(plain_page("src/sub/d.md", "Delta", "# Delta\n"))]);
        }
        other => panic!("no folder: {:?}", other),
    }
    assert_eq!(
        root.children[2],
        NavItem::Category(NavCategory {
            name: "Cat".to_string(),
            children: vec![
                NavItem::Page(plain_page("src/b.md", "Bee", "# Beta\n")),
                NavItem::Page(plain_page("src/sub/c.md", "Gamma", "# Gamma\n")),
            ],
        })
    );
    match &root.children[3] {
        NavItem::Folder(other) => {
            assert_eq!(other.index.path, Path::new("src/other/start.md"));
            assert_eq!(other.index.name, "Other");
            assert_eq!(
                other.children,
                vec![NavItem::Page(plain_page("src/other/e.md", "Epsilon", "# Epsilon\n"))]
            );
        }
        other => panic!("no folder: {:?}", other),
    }
    let paths: Vec<&str> = root.pages().iter().map(|p| p.path.as_str()).collect();
    assert_eq!(
        paths,
        vec![
            "src/index.md",
            "src/a.md",
            "src/sub/index.md",
            "src/sub/d.md",
            "src/b.md",
            "src/sub/c.md",
            "src/other/start.md",
            "src/other/e.md"
        ]
    );
}

#[test]
fn first_error_stops_the_folder() {
    let fs = tree(vec![
        file("src/index.md", "---\nnav:\n- a.md\n- missing.md\n- bad.md\n---\n# Root\n"),
        file("src/a.md", "# Alpha\n"),
        file("src/bad.md", "no title\n"),
    ]);
    assert_eq!(
        process_folder(&fs, &Path::new("src/index.md"), None, MAX_DEPTH, &Vec::new()),
        Err(error(ErrorKind::Unreadable, "src/missing.md"))
    );
}

#[test]
fn listing_takes_the_documents_in_the_order_of_their_names() {
    let fs = tree(vec![
        file("src/index.md", "---\nnav:\n- Name: dir/*\n---\n# Root\n"),
        dir(
            "src/dir",
            vec![
                file("src/dir/b.md", "# B\n"),
                file("src/dir/a.md", "# A\n"),
                file("src/dir/index.md", "---\nnav:\n- a.md\n---\n# Index\n"),
                file("src/dir/notes.txt", "notes"),
                dir("src/dir/deeper", vec![file("src/dir/deeper/z.md", "# Z\n")]),
            ],
        ),
    ]);
    let expected = NavCategory {
        name: "Name".to_string(),
        children: vec![
            NavItem::Page(plain_page("src/dir/a.md", "A", "# A\n")),
            NavItem::Page(plain_page("src/dir/b.md", "B", "# B\n")),
        ],
    };
    assert_eq!(process_include(&fs, &Path::new("src/dir"), "Name".to_string(), &Vec::new()), Ok(expected));
    let root = process_folder(&fs, &Path::new("src/index.md"), None, MAX_DEPTH, &Vec::new()).unwrap();
    match &root.children[0] {
        NavItem::Category(c) => {
            assert_eq!(c.name, "Name");
            assert_eq!(names(&c.children), vec!["A", "B"]);
        }
        other => panic!("no category: {:?}", other),
    }
}

#[test]
fn listing_is_ordered_by_name_not_by_path() {
    let fs = tree(vec![dir(
        "src/dir",
        vec![
            file("src/dir/1.md", "# b\n"),
            file("src/dir/2.md", "# a\n"),
            file("src/dir/3.md", "# B\n"),
            file("src/dir/4.md", "---\nname: \u{e9}\n---\n# x\n"),
            file("src/dir/5.md", "# a\n"),
            file("src/dir/6.md", "# ab\n"),
        ],
    )]);
    let category = process_include(&fs, &Path::new("src/dir"), "N".to_string(), &Vec::new()).unwrap();
    assert_eq!(names(&category.children), vec!["B", "a", "a", "ab", "b", "\u{e9}"]);
    let paths: Vec<&str> = category
        .children
        .iter()
        .map(|item| match item {
            NavItem::Page(p) => p.path.as_str(),
            _ => "",
        })
        .collect();
    assert_eq!(
        paths,
        vec!["src/dir/3.md", "src/dir/2.md", "src/dir/5.md", "src/dir/6.md", "src/dir/1.md", "src/dir/4.md"]
    );
}

#[test]
fn listing_errors() {
    let fs = tree(vec![
        dir("src/dir", vec![file("src/dir/a.md", "# A\n"), file("src/dir/bad.md", "bad\n")]),
        dir("src/nav", vec![file("src/nav/a.md", "---\nnav:\n- b.md\n---\n# A\n")]),
        file("src/index.md", "---\nnav:\n- dir/a.md\n---\n# Root\n"),
    ]);
    assert_eq!(
        process_include(&fs, &Path::new("src/none"), "N".to_string(), &Vec::new()),
        Err(error(ErrorKind::UnreadableDir, "src/none"))
    );
    assert_eq!(
        process_include(&fs, &Path::new("src/dir/a.md"), "N".to_string(), &Vec::new()),
        Err(error(ErrorKind::UnreadableDir, "src/dir/a.md"))
    );
    assert_eq!(
        process_include(&fs, &Path::new("src/dir"), "N".to_string(), &Vec::new()),
        Err(error(ErrorKind::Title(TitleError::NotHeading), "src/dir/bad.md"))
    );
    assert_eq!(
        process_include(&fs, &Path::new("src/nav"), "N".to_string(), &Vec::new()),
        Err(error(ErrorKind::UnexpectedNav, "src/nav/a.md"))
    );
    assert_eq!(
        process_include(&fs, &Path::new("src/index.md"), "N".to_string(), &Vec::new()),
        Err(error(ErrorKind::IndexListed, "src/index.md"))
    );
    assert_eq!(
        process_include(&fs, &Path::new("src/none/index.md"), "N".to_string(), &Vec::new()),
        Err(error(ErrorKind::IndexListed, "src/none/index.md"))
    );
}

#[test]
fn empty_listing_is_an_empty_category() {
    let fs = tree(vec![dir("src/dir", vec![file("src/dir/x.txt", "")])]);
    assert_eq!(
        process_include(&fs, &Path::new("src/dir"), "N".to_string(), &Vec::new()),
        Ok(NavCategory { name: "N".to_string(), children: vec![] })
    );
}

#[test]
fn category_is_resolved_in_the_directory_of_its_index() {
    let fs = tree(vec![
        file("src/a.md", "# Alpha\n"),
        dir("src/Cat", vec![file("src/Cat/a.md", "# Wrong\n")]),
    ]);
    let elems = vec![NavElem::File { name: None, path: "a.md".to_string() }];
    assert_eq!(
        process_category(&fs, &Path::new("src"), "Cat".to_string(), elems, MAX_DEPTH, &Vec::new()),
        Ok(NavCategory {
            name: "Cat".to_string(),
            children: vec![NavItem::Page(plain_page("src/a.md", "Alpha", "# Alpha\n"))],
        })
    );
    assert_eq!(
        process_category(&fs, &Path::new("src"), "Cat".to_string(), vec![], MAX_DEPTH, &Vec::new()),
        Ok(NavCategory { name: "Cat".to_string(), children: vec![] })
    );
}

#[test]
fn index_that_names_itself_is_given_up() {
    let fs = tree(vec![file("src/loop.md", "---\nnav:\n- !index loop.md\n---\n# Loop\n")]);
    assert_eq!(
        process_folder(&fs, &Path::new("src/loop.md"), None, MAX_DEPTH, &Vec::new()),
        Err(error(ErrorKind::DuplicatePage, "src/loop.md"))
    );
    assert_eq!(
        process_folder(&fs, &Path::new("src/loop.md"), None, 0, &Vec::new()),
        Err(error(ErrorKind::TooDeep, "src/loop.md"))
    );
}

#[test]
fn depth_counts_folders() {
    let fs = tree(vec![
        file("src/index.md", "---\nnav:\n- sub/\n---\n# Root\n"),
        dir(
            "src/sub",
            vec![file("src/sub/index.md", "---\nnav:\n- a.md\n---\n# Sub\n"), file("src/sub/a.md", "# A\n")],
        ),
    ]);
    assert!(process_folder(&fs, &Path::new("src/index.md"), None, 2, &Vec::new()).is_ok());
    assert_eq!(
        process_folder(&fs, &Path::new("src/index.md"), None, 1, &Vec::new()),
        Err(error(ErrorKind::TooDeep, "src/sub/index.md"))
    );
}

#[test]
fn index_without_a_directory() {
    let fs = SourceTree { entries: vec![file("", "---\nnav:\n- a.md\n---\n# Root\n")] };
    assert_eq!(
        process_folder(&fs, &Path::new(""), None, MAX_DEPTH, &Vec::new()),
        Err(error(ErrorKind::NoDirectory, ""))
    );
}

#[test]
fn insert_keeps_the_order_of_names() {
    let mut items: Vec<NavItem> = Vec::new();
    for (path, name) in [("1", "m"), ("2", "a"), ("3", "z"), ("4", "m"), ("5", "")] {
        insert_sorted(&mut items, NavItem::Page(plain_page(path, name, "")));
    }
    assert_eq!(names(&items), vec!["", "a", "m", "m", "z"]);
    match (&items[2], &items[3]) {
        (NavItem::Page(first), NavItem::Page(second)) => {
            assert_eq!(first.path, Path::new("1"));
            assert_eq!(second.path, Path::new("4"));
        }
        _ => panic!("no pages"),
    }
}

#[test]
fn canonical_text_of_a_page() {
    let fs = tree(vec![file("src/a.md", "---\nnav:    [ 'x.md' ]\n---\n\nTitle\n=====\n\n* item\n")]);
    let page = process_page(&fs, &Path::new("src/a.md"), None).unwrap();
    assert_eq!(page.name, "Title");
    assert_eq!(page.built_content, "\n\nTitle\n=====\n\n* item\n");
    assert_eq!(page.fixed_content, "---\nnav:\n- x.md\n---\n# Title\n\n- item\n");
}

#[test]
fn entries_may_spell_a_path_in_another_way() {
    let fs = tree(vec![
        file("src/index.md", "---\nnav:\n- ./a.md\n- sub//b.md\n- All: .//more/*\n---\n# Root\n"),
        file("src/a.md", "# Alpha\n"),
        dir("src/sub", vec![file("src/sub/b.md", "# Beta\n")]),
        dir("src/more", vec![file("src/more/c.md", "# Gamma\n")]),
    ]);
    let root = process_folder(&fs, &Path::new("src/index.md"), None, MAX_DEPTH, &Vec::new()).unwrap();
    assert_eq!(names(&root.children), vec!["Alpha", "Beta", "All"]);
    match &root.children[0] {
        NavItem::Page(page) => assert_eq!(page.path.as_str(), "src/./a.md"),
        other => panic!("no page: {:?}", other),
    }
    match &root.children[2] {
        NavItem::Category(c) => assert_eq!(names(&c.children), vec!["Gamma"]),
        other => panic!("no category: {:?}", other),
    }
}

#[test]
fn parent_directory_is_resolved() {
    let fs = tree(vec![
        file("src/index.md", "---\nnav:\n- sub/../a.md\n- All: sub/../more/*\n---\n# Root\n"),
        file("src/a.md", "# Alpha\n"),
        dir("src/sub", vec![]),
        dir("src/more", vec![file("src/more/b.md", "# Beta\n")]),
    ]);
    let root = process_folder(&fs, &Path::new("src/index.md"), None, MAX_DEPTH, &Vec::new()).unwrap();
    assert_eq!(names(&root.children), vec!["Alpha", "All"]);
    assert_eq!(root.children[0], NavItem::Page(plain_page("src/sub/../a.md", "Alpha", "# Alpha\n")));
    let paths: Vec<&str> = root.pages().iter().map(|p| p.path.as_str()).collect();
    assert_eq!(paths, vec!["src/index.md", "src/sub/../a.md", "src/more/b.md"]);
}

#[test]
fn path_out_of_the_tree_is_not_found() {
    let fs = tree(vec![file("src/index.md", "---\nnav:\n- ../a.md\n---\n# Root\n")]);
    assert_eq!(
        process_folder(&fs, &Path::new("src/index.md"), None, MAX_DEPTH, &Vec::new()),
        Err(error(ErrorKind::Unreadable, "src/../a.md"))
    );
}

#[test]
fn document_that_is_named_twice_fails() {
    let fs = tree(vec![
        file("src/index.md", "---\nnav:\n- a.md\n- b.md\n- Again: a.md\n---\n# Root\n"),
        file("src/a.md", "# Alpha\n"),
        file("src/b.md", "# Beta\n"),
    ]);
    assert_eq!(
        process_folder(&fs, &Path::new("src/index.md"), None, MAX_DEPTH, &Vec::new()),
        Err(error(ErrorKind::DuplicatePage, "src/a.md"))
    );
}

#[test]
fn document_that_is_named_twice_in_other_words_fails() {
    let fs = tree(vec![
        file("src/index.md", "---\nnav:\n- a.md\n- Cat:\n  - sub/.././a.md\n---\n# Root\n"),
        file("src/a.md", "# Alpha\n"),
        dir("src/sub", vec![]),
    ]);
    assert_eq!(
        process_folder(&fs, &Path::new("src/index.md"), None, MAX_DEPTH, &Vec::new()),
        Err(error(ErrorKind::DuplicatePage, "src/sub/.././a.md"))
    );
}

#[test]
fn index_that_is_named_as_a_file_fails() {
    let fs = tree(vec![
        file("src/index.md", "---\nnav:\n- sub/\n- sub/index.md\n---\n# Root\n"),
        dir(
            "src/sub",
            vec![file("src/sub/index.md", "---\nnav:\n- a.md\n---\n# Sub\n"), file("src/sub/a.md", "# A\n")],
        ),
    ]);
    assert_eq!(
        process_folder(&fs, &Path::new("src/index.md"), None, MAX_DEPTH, &Vec::new()),
        Err(error(ErrorKind::DuplicatePage, "src/sub/index.md"))
    );
}

#[test]
fn listing_of_a_page_of_the_tree_fails() {
    let fs = tree(vec![
        file("src/index.md", "---\nnav:\n- dir/b.md\n- All: dir/*\n---\n# Root\n"),
        dir("src/dir", vec![file("src/dir/a.md", "# A\n"), file("src/dir/b.md", "# B\n")]),
    ]);
    assert_eq!(
        process_folder(&fs, &Path::new("src/index.md"), None, MAX_DEPTH, &Vec::new()),
        Err(error(ErrorKind::DuplicatePage, "src/dir/b.md"))
    );
    let seen = vec![Path::new("src/dir/./a.md")];
    assert_eq!(
        process_include(&fs, &Path::new("src/dir"), "All".to_string(), &seen),
        Err(error(ErrorKind::DuplicatePage, "src/dir/a.md"))
    );
    assert_eq!(
        process_item(
            &fs,
            NavElem::File { name: None, path: "dir/a.md".to_string() },
            &Path::new("src"),
            MAX_DEPTH,
            &seen
        ),
        Err(error(ErrorKind::DuplicatePage, "src/dir/a.md"))
    );
    assert_eq!(
        process_folder(&fs, &Path::new("src/index.md"), None, MAX_DEPTH, &vec![Path::new("src/index.md")]),
        Err(error(ErrorKind::DuplicatePage, "src/index.md"))
    );
}

#[test]
fn listing_of_a_directory_that_is_named_like_an_index() {
    let fs = tree(vec![dir(
        "src/index.md",
        vec![file("src/index.md/b.md", "# B\n"), file("src/index.md/a.md", "# A\n")],
    )]);
    let category = process_include(&fs, &Path::new("src/index.md"), "N".to_string(), &Vec::new()).unwrap();
    assert_eq!(names(&category.children), vec!["A", "B"]);
}
