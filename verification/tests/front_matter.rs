use nr_spec_md::front_matter::{
    parse_filename, parse_tagged, DecodeError, FrontMatter, FrontMatterError, NavElem,
};
use nr_spec_md::yaml::{YamlEntry, YamlValue};

fn text(s: &str) -> YamlValue {
    YamlValue::String(s.to_string())
}

fn named(name: &str, value: YamlValue) -> YamlValue {
    YamlValue::Mapping(vec![YamlEntry { key: text(name), value }])
}

fn tagged(tag: &str, value: YamlValue) -> YamlValue {
    YamlValue::Tagged(tag.to_string(), Box::new(value))
}

fn name(s: &str) -> Option<String> {
    Some(s.to_string())
}

#[test]
fn decode_unnamed_file() {
    assert_eq!(
        NavElem::decode(&text("path.md")),
        Ok(NavElem::File { name: None, path: "path.md".to_string() })
    );
}

#[test]
fn decode_named_file() {
    assert_eq!(
        NavElem::decode(&named("Name", text("dir/path.md"))),
        Ok(NavElem::File { name: name("Name"), path: "dir/path.md".to_string() })
    );
}

#[test]
fn decode_unnamed_folder_strips_the_slash() {
    assert_eq!(
        NavElem::decode(&text("folder/")),
        Ok(NavElem::Folder { name: None, path: "folder".to_string() })
    );
}

#[test]
fn decode_named_folder() {
    assert_eq!(
        NavElem::decode(&named("Name", text("a/folder/"))),
        Ok(NavElem::Folder { name: name("Name"), path: "a/folder".to_string() })
    );
}

#[test]
fn decode_tagged_index() {
    assert_eq!(
        NavElem::decode(&named("Name", tagged("!index", text("path.md")))),
        Ok(NavElem::TaggedIndex { name: name("Name"), path: "path.md".to_string() })
    );
    assert_eq!(
        NavElem::decode(&tagged("index", text("path.md"))),
        Ok(NavElem::TaggedIndex { name: None, path: "path.md".to_string() })
    );
}

#[test]
fn decode_tagged_index_of_a_folder_is_the_folder() {
    assert_eq!(
        NavElem::decode(&named("Name", tagged("!index", text("dir/index.md")))),
        Ok(NavElem::Folder { name: name("Name"), path: "dir".to_string() })
    );
}

#[test]
fn decode_listing() {
    assert_eq!(
        NavElem::decode(&named("Name", text("dir/*"))),
        Ok(NavElem::Include { name: "Name".to_string(), path: "dir".to_string() })
    );
}

#[test]
fn decode_category() {
    let value = named(
        "Cat",
        YamlValue::Sequence(vec![text("a.md"), named("B", text("b/")), named("C", YamlValue::Sequence(vec![]))]),
    );
    assert_eq!(
        NavElem::decode(&value),
        Ok(NavElem::Category {
            name: "Cat".to_string(),
            elems: vec![
                NavElem::File { name: None, path: "a.md".to_string() },
                NavElem::Folder { name: name("B"), path: "b".to_string() },
                NavElem::Category { name: "C".to_string(), elems: vec![] },
            ],
        })
    );
}

#[test]
fn decode_category_fails_with_its_first_bad_entry() {
    let value = named("Cat", YamlValue::Sequence(vec![text("a.md"), text("b/*"), text("c")]));
    assert_eq!(NavElem::decode(&value), Err(DecodeError::UnnamedListing));
}

#[test]
fn decode_unnamed_listing_is_an_error() {
    assert_eq!(NavElem::decode(&text("dir/*")), Err(DecodeError::UnnamedListing));
}

#[test]
fn decode_bad_suffix() {
    assert_eq!(NavElem::decode(&text("readme.txt")), Err(DecodeError::NotFileOrFolder));
    assert_eq!(
        NavElem::decode(&named("Name", text("readme.txt"))),
        Err(DecodeError::NotFileFolderOrListing)
    );
    assert_eq!(NavElem::decode(&text("")), Err(DecodeError::NotFileOrFolder));
}

#[test]
fn decode_unknown_tag() {
    assert_eq!(NavElem::decode(&tagged("!other", text("a.md"))), Err(DecodeError::UnknownTag));
    assert_eq!(NavElem::decode(&tagged("!!index", text("a.md"))), Err(DecodeError::UnknownTag));
    assert_eq!(NavElem::decode(&tagged("!", text("a.md"))), Err(DecodeError::UnknownTag));
}

#[test]
fn decode_tag_on_something_else() {
    assert_eq!(
        NavElem::decode(&tagged("!index", YamlValue::Sequence(vec![]))),
        Err(DecodeError::TagPayload)
    );
    assert_eq!(NavElem::decode(&tagged("!index", text("dir/"))), Err(DecodeError::TagNotDocument));
}

#[test]
fn decode_bad_mappings() {
    let two = YamlValue::Mapping(vec![
        YamlEntry { key: text("A"), value: text("a.md") },
        YamlEntry { key: text("B"), value: text("b.md") },
    ]);
    assert_eq!(NavElem::decode(&two), Err(DecodeError::InvalidItem));
    assert_eq!(NavElem::decode(&YamlValue::Mapping(vec![])), Err(DecodeError::InvalidItem));
    let key = YamlValue::Mapping(vec![YamlEntry { key: YamlValue::Bool(true), value: text("a.md") }]);
    assert_eq!(NavElem::decode(&key), Err(DecodeError::KeyNotString));
    assert_eq!(NavElem::decode(&named("A", YamlValue::Null)), Err(DecodeError::MappingValue));
}

#[test]
fn decode_other_shapes() {
    assert_eq!(NavElem::decode(&YamlValue::Null), Err(DecodeError::InvalidItem));
    assert_eq!(NavElem::decode(&YamlValue::Bool(false)), Err(DecodeError::InvalidItem));
    assert_eq!(NavElem::decode(&YamlValue::Number("3".to_string())), Err(DecodeError::InvalidItem));
    assert_eq!(NavElem::decode(&YamlValue::Sequence(vec![text("a.md")])), Err(DecodeError::InvalidItem));
}

#[test]
fn index_is_rejected_in_every_position() {
    assert_eq!(NavElem::decode(&text("index.md")), Err(DecodeError::SelfReference));
    assert_eq!(NavElem::decode(&named("Name", text("index.md"))), Err(DecodeError::SelfReference));
    assert_eq!(
        NavElem::decode(&tagged("!index", text("index.md"))),
        Err(DecodeError::SelfReference)
    );
    assert_eq!(
        NavElem::decode(&named("Name", tagged("!index", text("index.md")))),
        Err(DecodeError::SelfReference)
    );
    assert_eq!(parse_filename(None, "index.md".to_string()), Err(DecodeError::SelfReference));
    assert_eq!(
        parse_tagged(name("N"), "index", &text("index.md")),
        Err(DecodeError::SelfReference)
    );
    let category = named("Cat", YamlValue::Sequence(vec![text("index.md")]));
    assert_eq!(NavElem::decode(&category), Err(DecodeError::SelfReference));
}

#[test]
fn index_in_a_folder_is_no_self_reference() {
    assert_eq!(
        NavElem::decode(&text("dir/index.md")),
        Ok(NavElem::File { name: None, path: "dir/index.md".to_string() })
    );
}

#[test]
fn encode_forms() {
    assert_eq!(NavElem::File { name: None, path: "a.md".to_string() }.encode(), text("a.md"));
    assert_eq!(
        NavElem::File { name: name("A"), path: "a.md".to_string() }.encode(),
        named("A", text("a.md"))
    );
    assert_eq!(NavElem::Folder { name: None, path: "dir".to_string() }.encode(), text("dir/"));
    assert_eq!(
        NavElem::Folder { name: name("D"), path: "dir".to_string() }.encode(),
        named("D", text("dir/"))
    );
    assert_eq!(
        NavElem::TaggedIndex { name: None, path: "x.md".to_string() }.encode(),
        tagged("!index", text("x.md"))
    );
    assert_eq!(
        NavElem::TaggedIndex { name: name("X"), path: "x.md".to_string() }.encode(),
        named("X", tagged("!index", text("x.md")))
    );
    assert_eq!(
        NavElem::Include { name: "All".to_string(), path: "dir".to_string() }.encode(),
        named("All", text("dir/*"))
    );
    assert_eq!(
        NavElem::Category {
            name: "Cat".to_string(),
            elems: vec![NavElem::File { name: None, path: "a.md".to_string() }],
        }
        .encode(),
        named("Cat", YamlValue::Sequence(vec![text("a.md")]))
    );
}

#[test]
fn decode_of_encode_gives_the_entry_again() {
    let values = vec![
        text("a.md"),
        named("A", text("a.md")),
        text("dir/"),
        named("D", text("dir/")),
        tagged("!index", text("x.md")),
        named("X", tagged("index", text("x.md"))),
        named("F", tagged("!index", text("dir/index.md"))),
        tagged("!index", text("/index.md")),
        named("All", text("dir/*")),
        named("Cat", YamlValue::Sequence(vec![text("a.md"), named("In", YamlValue::Sequence(vec![text("b/")]))])),
    ];
    for value in &values {
        let elem = NavElem::decode(value).unwrap();
        assert_eq!(NavElem::decode(&elem.encode()), Ok(elem));
    }
}

#[test]
fn tagged_index_of_a_folder_is_written_as_the_folder() {
    let read = NavElem::decode(&tagged("!index", text("dir/index.md"))).unwrap();
    assert_eq!(read.encode(), text("dir/"));
}

#[test]
fn clone_keeps_the_entry() {
    let elem = NavElem::Category {
        name: "Cat".to_string(),
        elems: vec![
            NavElem::File { name: name("A"), path: "a.md".to_string() },
            NavElem::Include { name: "L".to_string(), path: "l".to_string() },
        ],
    };
    assert_eq!(elem.clone(), elem);
}

#[test]
fn front_matter_of_a_mapping() {
    let value = YamlValue::Mapping(vec![
        YamlEntry { key: text("name"), value: text("Home") },
        YamlEntry { key: text("nav"), value: YamlValue::Sequence(vec![text("a.md")]) },
    ]);
    assert_eq!(
        FrontMatter::decode(&value),
        Ok(FrontMatter {
            name: name("Home"),
            nav: vec![NavElem::File { name: None, path: "a.md".to_string() }],
        })
    );
}

#[test]
fn front_matter_of_nothing_is_empty() {
    assert_eq!(FrontMatter::decode(&YamlValue::Null), Ok(FrontMatter { name: None, nav: vec![] }));
    assert_eq!(
        FrontMatter::decode(&YamlValue::Mapping(vec![])),
        Ok(FrontMatter::default())
    );
    assert!(FrontMatter::default().is_empty());
}

#[test]
fn front_matter_errors() {
    assert_eq!(FrontMatter::decode(&text("x")), Err(FrontMatterError::NotMapping));
    assert_eq!(
        FrontMatter::decode(&named("title", text("x"))),
        Err(FrontMatterError::UnknownField)
    );
    let bad_key = YamlValue::Mapping(vec![YamlEntry { key: YamlValue::Null, value: text("x") }]);
    assert_eq!(FrontMatter::decode(&bad_key), Err(FrontMatterError::UnknownField));
    let twice = YamlValue::Mapping(vec![
        YamlEntry { key: text("name"), value: text("a") },
        YamlEntry { key: text("name"), value: text("b") },
    ]);
    assert_eq!(FrontMatter::decode(&twice), Err(FrontMatterError::DuplicateField));
    assert_eq!(
        FrontMatter::decode(&named("name", YamlValue::Sequence(vec![]))),
        Err(FrontMatterError::BadName)
    );
    assert_eq!(
        FrontMatter::decode(&named("name", named("a", text("b")))),
        Err(FrontMatterError::BadName)
    );
    assert_eq!(FrontMatter::decode(&named("nav", text("a.md"))), Err(FrontMatterError::BadNav));
    assert_eq!(
        FrontMatter::decode(&named("nav", YamlValue::Bool(true))),
        Err(FrontMatterError::BadNav)
    );
    assert_eq!(
        FrontMatter::decode(&named("nav", YamlValue::Sequence(vec![text("index.md")]))),
        Err(FrontMatterError::Nav(DecodeError::SelfReference))
    );
}

#[test]
fn front_matter_is_written_without_what_it_lacks() {
    assert_eq!(FrontMatter::default().encode(), YamlValue::Mapping(vec![]));
    let fm = FrontMatter { name: name("Home"), nav: vec![] };
    assert!(!fm.is_empty());
    assert_eq!(fm.encode(), named("name", text("Home")));
    let fm = FrontMatter {
        name: None,
        nav: vec![NavElem::Folder { name: None, path: "d".to_string() }],
    };
    assert_eq!(fm.encode(), named("nav", YamlValue::Sequence(vec![text("d/")])));
    assert_eq!(FrontMatter::decode(&fm.encode()), Ok(fm.clone()));
}

#[test]
fn name_of_a_front_matter_may_be_any_scalar() {
    let fm = |name: Option<&str>| Ok(FrontMatter { name: name.map(|n| n.to_string()), nav: vec![] });
    assert_eq!(FrontMatter::decode(&named("name", YamlValue::Number("2024".to_string()))), fm(Some("2024")));
    assert_eq!(FrontMatter::decode(&named("name", YamlValue::Bool(true))), fm(Some("true")));
    assert_eq!(FrontMatter::decode(&named("name", YamlValue::Bool(false))), fm(Some("false")));
    assert_eq!(FrontMatter::decode(&named("name", YamlValue::Null)), fm(None));
}

#[test]
fn entries_of_a_front_matter_may_be_left_empty() {
    assert_eq!(FrontMatter::decode(&named("nav", YamlValue::Null)), Ok(FrontMatter::default()));
    let twice = YamlValue::Mapping(vec![
        YamlEntry { key: text("nav"), value: YamlValue::Null },
        YamlEntry { key: text("nav"), value: YamlValue::Sequence(vec![]) },
    ]);
    assert_eq!(FrontMatter::decode(&twice), Err(FrontMatterError::DuplicateField));
}
