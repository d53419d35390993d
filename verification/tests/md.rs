use nr_spec_md::front_matter::{DecodeError, FrontMatter, FrontMatterError, NavElem};
use nr_spec_md::md::{
    build, extract_title_h1, fix, frame_front_matter, prepend_front_matter, style,
    take_front_matter, title_of_events, BlockError, MdEvent, TitleError, MD_OPTIONS,
};

#[test]
fn build_leaves_the_document_alone() {
    assert_eq!(build("# A\n\n* b\n"), "# A\n\n* b\n");
}

#[test]
fn fix_keeps_a_canonical_document() {
    assert_eq!(fix("# Title\n\nSome text.\n"), "# Title\n\nSome text.\n");
}

#[test]
fn fix_rewrites_list_markers_and_fences() {
    assert_eq!(fix("* one\n* two\n"), "- one\n- two\n");
    assert_eq!(fix("Title\n=====\n"), "# Title\n");
    assert_eq!(fix("~~~\ncode\n~~~\n"), "\n```\ncode\n```\n");
}

#[test]
fn fix_is_idempotent_on_samples() {
    for doc in ["# T\n\ntext\n", "* a\n* b\n\n1. x\n2. y\n", "> quote\n\n---\n\n__bold__ _it_\n"] {
        let once = fix(doc);
        assert_eq!(fix(&once), once);
    }
}

#[test]
fn options_and_style() {
    assert_eq!(MD_OPTIONS, 70);
    let s = style();
    assert_eq!(s.code_block_token_count, 3);
    assert_eq!(s.list_token, '-');
    assert_eq!(s.strong_token, "**");
    assert_eq!(s.newlines_after_rest, 1);
    assert!(!s.increment_ordered_list_bullets);
}

#[test]
fn title_is_the_first_heading() {
    assert_eq!(extract_title_h1("# Hello world\n\ntext\n"), Ok("Hello world".to_string()));
    assert_eq!(extract_title_h1("\n\n# Later\n"), Ok("Later".to_string()));
    assert_eq!(extract_title_h1("# `code`\n"), Ok("code".to_string()));
    assert_eq!(extract_title_h1("Setext\n======\n"), Ok("Setext".to_string()));
}

#[test]
fn extract_title_fails_without_a_leading_heading() {
    assert_eq!(extract_title_h1("text first\n\n# Title\n"), Err(TitleError::NotHeading));
    assert_eq!(extract_title_h1("## Second level\n"), Err(TitleError::NotHeading));
    assert_eq!(extract_title_h1("- # in a list\n"), Err(TitleError::NotHeading));
}

#[test]
fn extract_title_fails_on_an_empty_document() {
    assert_eq!(extract_title_h1(""), Err(TitleError::Empty));
    assert_eq!(extract_title_h1("\n\n"), Err(TitleError::Empty));
}

#[test]
fn extract_title_fails_on_a_heading_that_is_not_plain() {
    assert_eq!(extract_title_h1("# Hello *world*\n"), Err(TitleError::NotPlain));
    assert_eq!(extract_title_h1("#\n"), Err(TitleError::NotPlain));
    assert_eq!(extract_title_h1("# [link](x.md)\n"), Err(TitleError::NotPlain));
}

#[test]
fn title_of_given_events() {
    let text = |s: &str| MdEvent::Text(s.to_string());
    assert_eq!(title_of_events(&vec![]), Err(TitleError::Empty));
    assert_eq!(title_of_events(&vec![MdEvent::Other]), Err(TitleError::NotHeading));
    assert_eq!(title_of_events(&vec![text("a")]), Err(TitleError::NotHeading));
    assert_eq!(title_of_events(&vec![MdEvent::TitleStart]), Err(TitleError::NotPlain));
    assert_eq!(
        title_of_events(&vec![MdEvent::TitleStart, text("a")]),
        Err(TitleError::NotPlain)
    );
    assert_eq!(
        title_of_events(&vec![MdEvent::TitleStart, text("a"), MdEvent::Other]),
        Err(TitleError::NotPlain)
    );
    assert_eq!(
        title_of_events(&vec![MdEvent::TitleStart, MdEvent::Other, MdEvent::TitleEnd]),
        Err(TitleError::NotPlain)
    );
    assert_eq!(
        title_of_events(&vec![MdEvent::TitleStart, text("a"), MdEvent::TitleEnd]),
        Ok("a".to_string())
    );
    assert_eq!(
        title_of_events(&vec![
            MdEvent::TitleStart,
            MdEvent::Code("c".to_string()),
            MdEvent::TitleEnd,
            MdEvent::Other
        ]),
        Ok("c".to_string())
    );
}

#[test]
fn document_without_front_matter_is_all_body() {
    assert_eq!(take_front_matter("# Title\n"), Ok((None, "# Title\n")));
    assert_eq!(take_front_matter(""), Ok((None, "")));
    assert_eq!(take_front_matter("--\n"), Ok((None, "--\n")));
}

#[test]
fn front_matter_is_taken_from_the_head() {
    let doc = "---\nname: Home\nnav:\n  - a.md\n  - Sub: sub/\n  - X: !index x.md\n  - All: docs/*\n  - Cat:\n    - b.md\n---\n# Title\n";
    let (fm, body) = take_front_matter(doc).unwrap();
    assert_eq!(body, "\n# Title\n");
    assert_eq!(
        fm,
        Some(FrontMatter {
            name: Some("Home".to_string()),
            nav: vec![
                NavElem::File { name: None, path: "a.md".to_string() },
                NavElem::Folder { name: Some("Sub".to_string()), path: "sub".to_string() },
                NavElem::TaggedIndex { name: Some("X".to_string()), path: "x.md".to_string() },
                NavElem::Include { name: "All".to_string(), path: "docs".to_string() },
                NavElem::Category {
                    name: "Cat".to_string(),
                    elems: vec![NavElem::File { name: None, path: "b.md".to_string() }],
                },
            ],
        })
    );
}

#[test]
fn front_matter_block_ends_at_the_first_fence() {
    let (fm, body) = take_front_matter("---\nname: A\n---\nbody\n---\nmore\n").unwrap();
    assert_eq!(fm, Some(FrontMatter { name: Some("A".to_string()), nav: vec![] }));
    assert_eq!(body, "\nbody\n---\nmore\n");
}

#[test]
fn empty_front_matter_block() {
    assert_eq!(take_front_matter("---\n---\n# T\n"), Ok((Some(FrontMatter::default()), "\n# T\n")));
}

#[test]
fn front_matter_errors_of_a_document() {
    assert_eq!(take_front_matter("---\nname: A\n# Title\n"), Err(BlockError::Unclosed));
    assert_eq!(take_front_matter("---"), Err(BlockError::Unclosed));
    assert_eq!(take_front_matter("---\nname: [a\n---\n"), Err(BlockError::Yaml));
    assert_eq!(
        take_front_matter("---\ntitle: A\n---\n"),
        Err(BlockError::Schema(FrontMatterError::UnknownField))
    );
    assert_eq!(
        take_front_matter("---\n- a\n---\n"),
        Err(BlockError::Schema(FrontMatterError::NotMapping))
    );
    assert_eq!(
        take_front_matter("---\nnav:\n  - index.md\n---\n"),
        Err(BlockError::Schema(FrontMatterError::Nav(DecodeError::SelfReference)))
    );
    assert_eq!(
        take_front_matter("---\nnav:\n  - 12\n---\n"),
        Err(BlockError::Schema(FrontMatterError::Nav(DecodeError::InvalidItem)))
    );
    assert_eq!(
        take_front_matter("---\nnav:\n  - A: !other a.md\n---\n"),
        Err(BlockError::Schema(FrontMatterError::Nav(DecodeError::UnknownTag)))
    );
}

#[test]
fn frame_puts_fences_around_the_yaml() {
    assert_eq!(frame_front_matter("name: A\n", "# T\n"), "---\nname: A\n---\n# T\n");
    assert_eq!(frame_front_matter("", ""), "---\n---\n");
}

#[test]
fn empty_front_matter_is_not_written() {
    assert_eq!(prepend_front_matter(&FrontMatter::default(), "# T\n"), Some("# T\n".to_string()));
}

#[test]
fn front_matter_is_written_in_front() {
    let fm = FrontMatter {
        name: Some("Home".to_string()),
        nav: vec![
            NavElem::File { name: None, path: "a.md".to_string() },
            NavElem::Folder { name: Some("Sub".to_string()), path: "sub".to_string() },
            NavElem::TaggedIndex { name: Some("X".to_string()), path: "x.md".to_string() },
            NavElem::Include { name: "All".to_string(), path: "docs".to_string() },
        ],
    };
    assert_eq!(
        prepend_front_matter(&fm, "# T\n"),
        Some("---\nname: Home\nnav:\n- a.md\n- Sub: sub/\n- X: !index x.md\n- All: docs/*\n---\n# T\n".to_string())
    );
}

#[test]
fn written_front_matter_is_read_again() {
    let fm = FrontMatter {
        name: None,
        nav: vec![NavElem::Category {
            name: "Cat".to_string(),
            elems: vec![
                NavElem::File { name: Some("A: b".to_string()), path: "a.md".to_string() },
                NavElem::TaggedIndex { name: None, path: "x.md".to_string() },
            ],
        }],
    };
    let doc = prepend_front_matter(&fm, "# T\n").unwrap();
    assert_eq!(take_front_matter(&doc), Ok((Some(fm), "\n# T\n")));
}

#[test]
fn scalars_of_a_front_matter_block() {
    let named = |n: &str| Some(FrontMatter { name: Some(n.to_string()), nav: vec![] });
    assert_eq!(take_front_matter("---\nname: 2024\n---\n"), Ok((named("2024"), "\n")));
    assert_eq!(take_front_matter("---\nname: true\n---\n"), Ok((named("true"), "\n")));
    assert_eq!(take_front_matter("---\nname: 1.5\n---\n"), Ok((named("1.5"), "\n")));
    assert_eq!(take_front_matter("---\nname:\nnav:\n---\n"), Ok((Some(FrontMatter::default()), "\n")));
    let doc = prepend_front_matter(&FrontMatter { name: Some("2024".to_string()), nav: vec![] }, "# T\n").unwrap();
    assert_eq!(take_front_matter(&doc), Ok((named("2024"), "\n# T\n")));
}
