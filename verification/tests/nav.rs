use nr_spec_md::front_matter::FrontMatter;
use nr_spec_md::nav::{nav_children_iter, NavCategory, NavFolder, NavItem, NavItemIter, NavPage};
use nr_spec_md::path::Path;

fn page(path: &str) -> NavPage {
    NavPage {
        path: Path::new(path),
        name: path.to_string(),
        fm: FrontMatter::default(),
        raw_content: String::new(),
        built_content: String::new(),
        fixed_content: String::new(),
    }
}

fn sample() -> NavFolder {
    NavFolder {
        index: page("index"),
        children: vec![
            NavItem::Page(page("a")),
            NavItem::Category(NavCategory {
                name: "cat".to_string(),
                children: vec![
                    NavItem::Page(page("b")),
                    NavItem::Folder(NavFolder { index: page("sub"), children: vec![NavItem::Page(page("c"))] }),
                    NavItem::Category(NavCategory { name: "empty".to_string(), children: vec![] }),
                ],
            }),
            NavItem::Page(page("d")),
        ],
    }
}

fn paths(pages: Vec<&NavPage>) -> Vec<&str> {
    pages.into_iter().map(|p| p.path.as_str()).collect()
}

#[test]
fn folder_walk_starts_with_the_index() {
    assert_eq!(paths(sample().pages()), vec!["index", "a", "b", "sub", "c", "d"]);
}

#[test]
fn children_walk_leaves_the_index_out() {
    let folder = sample();
    assert_eq!(paths(nav_children_iter(&folder.children)), vec!["a", "b", "sub", "c", "d"]);
    assert_eq!(paths(nav_children_iter(&[])), Vec::<&str>::new());
}

#[test]
fn walks_of_each_kind() {
    let folder = sample();
    assert_eq!(paths(folder.index.pages()), vec!["index"]);
    assert_eq!(paths(folder.children[0].pages()), vec!["a"]);
    assert_eq!(paths(folder.children[1].pages()), vec!["b", "sub", "c"]);
    match &folder.children[1] {
        NavItem::Category(c) => assert_eq!(paths(c.pages()), vec!["b", "sub", "c"]),
        _ => panic!("no category"),
    }
    assert_eq!(paths(NavItem::Folder(sample()).pages()), vec!["index", "a", "b", "sub", "c", "d"]);
}

#[test]
fn walk_hands_out_every_page_once() {
    let item = NavItem::Folder(sample());
    let mut walk = item.into_iter();
    assert!(matches!(walk, NavItemIter::Folder(_)));
    assert_eq!(walk.size_hint(), (6, Some(6)));
    let mut seen = Vec::new();
    while let Some(p) = walk.next() {
        seen.push(p.path.as_str());
    }
    assert_eq!(seen, vec!["index", "a", "b", "sub", "c", "d"]);
    assert_eq!(walk.size_hint(), (0, Some(0)));
    assert!(walk.next().is_none());
}

#[test]
fn walk_can_be_started_again() {
    let item = NavItem::Page(page("p"));
    let mut first = item.into_iter();
    assert!(matches!(first, NavItemIter::Page(_)));
    assert_eq!(first.next().map(|p| p.path.as_str()), Some("p"));
    assert_eq!(first.size_hint(), (0, Some(0)));
    let mut second = item.into_iter();
    assert_eq!(second.size_hint(), (1, Some(1)));
    assert_eq!(second.next().map(|p| p.path.as_str()), Some("p"));
    assert!(second.next().is_none());
    let empty = NavItem::Category(NavCategory { name: "c".to_string(), children: vec![] });
    let mut walk = empty.into_iter();
    assert!(matches!(walk, NavItemIter::Category(_)));
    assert!(walk.next().is_none());
}
