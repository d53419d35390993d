//! What holds of every tree that the resolver gives.

use vstd::prelude::*;
use vstd::seq_lib::{to_multiset_build, to_multiset_insert};
use crate::front_matter::{index_name, NavElemView};
use crate::md::{markdown_events, take_front_matter_spec, title_spec, MD_OPTIONS};
use crate::nav::{
    folder_pages, item_pages, items_pages, page_paths, NavCategoryView, NavFolderView,
    NavItemView, NavPageView,
};
use crate::path::{join_spec, parent_spec, same_path, uses_spec};
use crate::process::{
    elem_size, elems_size, folder_spec, include_spec, insert_sorted_spec, insertion_point,
    item_name, item_spec, items_spec, leaf_spec, listed, listed_pages, page_of_text, page_spec,
    resolve_name_spec, sorted_pages, ErrorClass, ErrorKind, Failure,
};
use crate::source::{dir_among, SourceView};
use crate::text::{
    lemma_text_le_antisymmetric, lemma_text_le_reflexive, lemma_text_le_total,
    lemma_text_le_transitive, text_le,
};

verus! {

/// The names of the items never go back.
pub open spec fn ordered_by_name(items: Seq<NavItemView>) -> bool {
    forall|i: int, j: int|
        0 <= i <= j < items.len() ==> text_le(
            item_name(#[trigger] items[i]),
            item_name(#[trigger] items[j]),
        )
}

/// The pages as items, in the order in which they stand.
pub open spec fn page_items(pages: Seq<NavPageView>) -> Seq<NavItemView> {
    Seq::new(pages.len(), |i: int| NavItemView::Page(pages[i]))
}

/// An item goes in behind an item whose name is not behind its own, and in
/// front of items whose names are.
pub proof fn lemma_insertion_point(items: Seq<NavItemView>, name: Seq<char>)
    ensures
        0 <= insertion_point(items, name) <= items.len(),
        forall|k: int|
            insertion_point(items, name) <= k < items.len() ==> !text_le(
                item_name(#[trigger] items[k]),
                name,
            ),
        insertion_point(items, name) > 0 ==> text_le(
            item_name(items[insertion_point(items, name) - 1]),
            name,
        ),
    decreases items.len(),
{
    if items.len() > 0 && !text_le(item_name(items.last()), name) {
        lemma_insertion_point(items.drop_last(), name);
        let p = insertion_point(items, name);
        assert forall|k: int| p <= k < items.len() implies !text_le(
            item_name(#[trigger] items[k]),
            name,
        ) by {
            if k < items.len() - 1 {
                assert(items.drop_last()[k] == items[k]);
            }
        }
        if p > 0 {
            assert(items.drop_last()[p - 1] == items[p - 1]);
        }
    }
}

/// Items in the order of their names are still so with one more put in.
pub proof fn lemma_insert_ordered(items: Seq<NavItemView>, item: NavItemView)
    requires
        ordered_by_name(items),
    ensures
        ordered_by_name(insert_sorted_spec(items, item)),
{
    let name = item_name(item);
    let p = insertion_point(items, name);
    let after = insert_sorted_spec(items, item);
    lemma_insertion_point(items, name);
    assert forall|i: int, j: int| 0 <= i <= j < after.len() implies text_le(
        item_name(#[trigger] after[i]),
        item_name(#[trigger] after[j]),
    ) by {
        if i == p && j == p {
            lemma_text_le_reflexive(name);
        } else if i == p {
            assert(after[j] == items[j - 1]);
            lemma_text_le_total(item_name(items[j - 1]), name);
        } else if j == p {
            assert(after[i] == items[i]);
            assert(text_le(item_name(items[i]), item_name(items[p - 1])));
            lemma_text_le_transitive(item_name(items[i]), item_name(items[p - 1]), name);
        } else if i < p && j < p {
            assert(after[i] == items[i] && after[j] == items[j]);
        } else if i < p {
            assert(after[i] == items[i] && after[j] == items[j - 1]);
        } else {
            assert(after[i] == items[i - 1] && after[j] == items[j - 1]);
        }
    }
}

/// The pages of a listing stand in the order of their names, each of them
/// once.
pub proof fn lemma_sorted_pages(pages: Seq<NavPageView>)
    ensures
        ordered_by_name(sorted_pages(pages)),
        sorted_pages(pages).len() == pages.len(),
        sorted_pages(pages).to_multiset() == page_items(pages).to_multiset(),
    decreases pages.len(),
{
    if pages.len() == 0 {
        assert(page_items(pages) =~= sorted_pages(pages));
    } else {
        lemma_sorted_pages(pages.drop_last());
        let front = sorted_pages(pages.drop_last());
        let item = NavItemView::Page(pages.last());
        lemma_insert_ordered(front, item);
        lemma_insertion_point(front, item_name(item));
        to_multiset_insert(front, insertion_point(front, item_name(item)), item);
        to_multiset_build(page_items(pages.drop_last()), item);
        assert(page_items(pages) =~= page_items(pages.drop_last()).push(item));
    }
}

/// The items of the name `name`, in the order in which they stand.
pub open spec fn with_name(items: Seq<NavItemView>, name: Seq<char>) -> Seq<NavItemView>
    decreases items.len(),
{
    if items.len() == 0 {
        Seq::empty()
    } else if item_name(items.last()) == name {
        with_name(items.drop_last(), name).push(items.last())
    } else {
        with_name(items.drop_last(), name)
    }
}

/// The items of a name in two runs, one behind the other, are those of the
/// first and then those of the second.
proof fn lemma_with_name_add(a: Seq<NavItemView>, b: Seq<NavItemView>, name: Seq<char>)
    ensures
        with_name(a + b, name) == with_name(a, name) + with_name(b, name),
    decreases b.len(),
{
    if b.len() == 0 {
        assert(a + b =~= a);
        assert(with_name(a, name) + with_name(b, name) =~= with_name(a, name));
    } else {
        assert((a + b).drop_last() =~= a + b.drop_last());
        assert((a + b).last() == b.last());
        lemma_with_name_add(a, b.drop_last(), name);
        if item_name(b.last()) == name {
            assert(with_name(a + b, name) =~= with_name(a, name) + with_name(b, name));
        }
    }
}

/// A run without an item of a name has no items of that name.
proof fn lemma_with_name_none(items: Seq<NavItemView>, name: Seq<char>)
    requires
        forall|i: int| 0 <= i < items.len() ==> item_name(#[trigger] items[i]) != name,
    ensures
        with_name(items, name) == Seq::<NavItemView>::empty(),
    decreases items.len(),
{
    if items.len() > 0 {
        assert(item_name(items[items.len() - 1]) != name);
        assert forall|i: int| 0 <= i < items.drop_last().len() implies item_name(
            #[trigger] items.drop_last()[i],
        ) != name by {
            assert(items.drop_last()[i] == items[i]);
        }
        lemma_with_name_none(items.drop_last(), name);
    }
}

/// Putting the pages of a listing in the order of their names leaves the
/// pages of each name in the order in which they came.
pub proof fn lemma_sorted_pages_stable(pages: Seq<NavPageView>, name: Seq<char>)
    ensures
        with_name(sorted_pages(pages), name) == with_name(page_items(pages), name),
    decreases pages.len(),
{
    if pages.len() == 0 {
        assert(page_items(pages) =~= sorted_pages(pages));
    } else {
        lemma_sorted_pages_stable(pages.drop_last(), name);
        let front = sorted_pages(pages.drop_last());
        let item = NavItemView::Page(pages.last());
        let p = insertion_point(front, item_name(item));
        lemma_insertion_point(front, item_name(item));
        let head = front.take(p);
        let tail = front.skip(p);
        assert(front =~= head + tail);
        assert(front.insert(p, item) =~= (head + seq![item]) + tail);
        lemma_with_name_add(head, tail, name);
        lemma_with_name_add(head + seq![item], tail, name);
        lemma_with_name_add(head, seq![item], name);
        assert(seq![item].drop_last() =~= Seq::<NavItemView>::empty());
        assert(with_name(Seq::<NavItemView>::empty(), name) =~= Seq::<NavItemView>::empty());
        assert(seq![item].last() == item);
        assert(with_name(seq![item], name) =~= if item_name(item) == name {
            seq![item]
        } else {
            Seq::empty()
        });
        if item_name(item) == name {
            assert forall|i: int| 0 <= i < tail.len() implies item_name(#[trigger] tail[i])
                != name by {
                assert(tail[i] == front[p + i]);
                lemma_text_le_reflexive(name);
            }
            lemma_with_name_none(tail, name);
            assert(with_name(front.insert(p, item), name) =~= with_name(front, name).push(item));
        } else {
            assert(with_name(front.insert(p, item), name) =~= with_name(front, name));
        }
        assert(page_items(pages).drop_last() =~= page_items(pages.drop_last()));
        assert(page_items(pages).last() == item);
    }
}

/// What the resolver gives for a node: a page has no navigation entries; a
/// folder has an index page with entries, and one child for each of them.
pub open spec fn item_wf(item: NavItemView) -> bool
    decreases item, 0nat,
{
    match item {
        NavItemView::Page(page) => page.fm.nav.len() == 0,
        NavItemView::Folder(folder) => {
            &&& folder.index.fm.nav.len() > 0
            &&& folder.children.len() == folder.index.fm.nav.len()
            &&& items_wf(folder.children)
        },
        NavItemView::Category(category) => items_wf(category.children),
    }
}

/// What the resolver gives for a run of nodes.
pub open spec fn items_wf(items: Seq<NavItemView>) -> bool
    decreases items, 1nat,
{
    items.len() == 0 || (items_wf(items.drop_last()) && item_wf(items.last()))
}

/// A run of nodes is as the resolver gives it when each of them is.
pub proof fn lemma_items_wf(items: Seq<NavItemView>)
    ensures
        items_wf(items) <==> forall|i: int| 0 <= i < items.len() ==> item_wf(#[trigger] items[i]),
    decreases items.len(),
{
    if items.len() > 0 {
        lemma_items_wf(items.drop_last());
        if items_wf(items) {
            assert forall|i: int| 0 <= i < items.len() implies item_wf(#[trigger] items[i]) by {
                if i < items.len() - 1 {
                    assert(items.drop_last()[i] == items[i]);
                }
            }
        }
        if forall|i: int| 0 <= i < items.len() ==> item_wf(#[trigger] items[i]) {
            assert forall|i: int| 0 <= i < items.drop_last().len() implies item_wf(
                #[trigger] items.drop_last()[i],
            ) by {
                assert(items.drop_last()[i] == items[i]);
            }
        }
    }
}

/// A page that was resolved as a leaf lies under the path that was asked
/// for, has no navigation entries, and was no page of the tree before.
pub proof fn lemma_leaf(
    fs: Seq<SourceView>,
    path: Seq<char>,
    name: Option<Seq<char>>,
    seen: Seq<Seq<char>>,
)
    ensures
        leaf_spec(fs, path, name, seen) matches Ok(page) ==> page.path == path
            && page.fm.nav.len() == 0 && !uses_spec(seen, path),
{
}

/// The pages of a listing have no navigation entries.
pub proof fn lemma_listed_pages(fs: Seq<SourceView>, entries: Seq<SourceView>, seen: Seq<Seq<char>>)
    ensures
        listed_pages(fs, entries, seen) matches Ok(pages) ==> forall|i: int|
            0 <= i < pages.len() ==> (#[trigger] pages[i]).fm.nav.len() == 0,
    decreases entries.len(),
{
    if entries.len() > 0 {
        lemma_listed_pages(fs, entries.drop_last(), seen);
        if let Ok(front) = listed_pages(fs, entries.drop_last(), seen) {
            if listed(entries.last()) {
                lemma_leaf(fs, entries.last()->File_path, None, seen + page_paths(front));
            }
        }
    }
}

/// Pages without navigation entries, put in order, are nodes as the
/// resolver gives them.
pub proof fn lemma_sorted_pages_wf(pages: Seq<NavPageView>)
    requires
        forall|i: int| 0 <= i < pages.len() ==> (#[trigger] pages[i]).fm.nav.len() == 0,
    ensures
        items_wf(sorted_pages(pages)),
    decreases pages.len(),
{
    if pages.len() > 0 {
        assert forall|i: int| 0 <= i < pages.drop_last().len() implies (
        #[trigger] pages.drop_last()[i]).fm.nav.len() == 0 by {
            assert(pages.drop_last()[i] == pages[i]);
        }
        lemma_sorted_pages_wf(pages.drop_last());
        let front = sorted_pages(pages.drop_last());
        let item = NavItemView::Page(pages.last());
        let p = insertion_point(front, item_name(item));
        lemma_insertion_point(front, item_name(item));
        lemma_items_wf(front);
        let after = front.insert(p, item);
        assert forall|i: int| 0 <= i < after.len() implies item_wf(#[trigger] after[i]) by {
            if i < p {
                assert(after[i] == front[i]);
            } else if i > p {
                assert(after[i] == front[i - 1]);
            }
        }
        lemma_items_wf(after);
    }
}

/// A folder that the resolver gives has its index page under the path that
/// was asked for, and is a node as the resolver gives them: no page below
/// it but an index page has navigation entries, and every index page has
/// some, with one child for each.
pub proof fn lemma_folder_wf(
    fs: Seq<SourceView>,
    path: Seq<char>,
    name: Option<Seq<char>>,
    depth: nat,
    seen: Seq<Seq<char>>,
)
    ensures
        folder_spec(fs, path, name, depth, seen) matches Ok(folder) ==> folder.index.path == path
            && item_wf(NavItemView::Folder(folder)),
    decreases depth, 0nat,
{
    if depth > 0 {
        if let Ok(index) = page_spec(fs, path, name) {
            if let Some(dir) = parent_spec(path) {
                lemma_items_resolved_wf(fs, index.fm.nav, dir, (depth - 1) as nat, seen.push(path));
            }
        }
    }
}

/// An item that the resolver gives is a node as the resolver gives them.
pub proof fn lemma_item_wf(
    fs: Seq<SourceView>,
    elem: NavElemView,
    dir: Seq<char>,
    depth: nat,
    seen: Seq<Seq<char>>,
)
    ensures
        item_spec(fs, elem, dir, depth, seen) matches Ok(item) ==> item_wf(item),
    decreases depth, 2 * elem_size(elem),
{
    match elem {
        NavElemView::File { name, path } => {
            lemma_leaf(fs, join_spec(dir, path), name, seen);
        },
        NavElemView::Folder { name, path } => {
            lemma_folder_wf(fs, join_spec(join_spec(dir, path), index_name()), name, depth, seen);
        },
        NavElemView::TaggedIndex { name, path } => {
            lemma_folder_wf(fs, join_spec(dir, path), name, depth, seen);
        },
        NavElemView::Include { name, path } => {
            lemma_include_wf(fs, join_spec(dir, path), name, seen);
        },
        NavElemView::Category { name, elems } => {
            lemma_items_resolved_wf(fs, elems, dir, depth, seen);
        },
    }
}

/// The category of a listing holds nodes as the resolver gives them, in the
/// order of their names.
pub proof fn lemma_include_wf(
    fs: Seq<SourceView>,
    dir: Seq<char>,
    name: Seq<char>,
    seen: Seq<Seq<char>>,
)
    ensures
        include_spec(fs, dir, name, seen) matches Ok(category) ==> category.name == name
            && items_wf(category.children) && ordered_by_name(category.children),
{
    if let Ok(category) = include_spec(fs, dir, name, seen) {
        let entries = dir_among(fs, dir)->Some_0;
        let pages = listed_pages(fs, entries, seen)->Ok_0;
        lemma_listed_pages(fs, entries, seen);
        lemma_sorted_pages_wf(pages);
        lemma_sorted_pages(pages);
    }
}

/// The items that the resolver gives for a run of entries are nodes as the
/// resolver gives them, one for each entry.
pub proof fn lemma_items_resolved_wf(
    fs: Seq<SourceView>,
    elems: Seq<NavElemView>,
    dir: Seq<char>,
    depth: nat,
    seen: Seq<Seq<char>>,
)
    ensures
        items_spec(fs, elems, dir, depth, seen) matches Ok(items) ==> items.len() == elems.len()
            && items_wf(items),
    decreases depth, 2 * elems_size(elems) + 1,
{
    if elems.len() > 0 {
        lemma_items_resolved_wf(fs, elems.drop_last(), dir, depth, seen);
        if let Ok(front) = items_spec(fs, elems.drop_last(), dir, depth, seen) {
            lemma_item_wf(fs, elems.last(), dir, depth, seen + page_paths(items_pages(front)));
        }
        if let Ok(items) = items_spec(fs, elems, dir, depth, seen) {
            assert(items.drop_last() =~= items_spec(fs, elems.drop_last(), dir, depth, seen)->Ok_0);
        }
    }
}

/// An index document without navigation entries makes no folder: the
/// resolver fails with an error of the structure, and with the error of
/// the missing entries unless it gave up or found the document in the tree
/// before.
pub proof fn lemma_index_needs_entries(
    fs: Seq<SourceView>,
    path: Seq<char>,
    name: Option<Seq<char>>,
    depth: nat,
    seen: Seq<Seq<char>>,
)
    requires
        page_spec(fs, path, name) matches Ok(index) && index.fm.nav.len() == 0,
    ensures
        folder_spec(fs, path, name, depth, seen) matches Err(e) && e.kind.class_spec()
            == ErrorClass::Structure && e.path == path,
        depth > 0 && !uses_spec(seen, path) && parent_spec(path) is Some ==> folder_spec(
            fs,
            path,
            name,
            depth,
            seen,
        ) == Err::<NavFolderView, Failure>(Failure { kind: ErrorKind::MissingNav, path }),
{
}

/// A document with navigation entries makes no page unless it is the index
/// document of a folder: not for a file entry, and not in a listing. The
/// resolver fails with an error of the structure.
pub proof fn lemma_leaf_has_no_entries(
    fs: Seq<SourceView>,
    name: Option<Seq<char>>,
    path: Seq<char>,
    dir: Seq<char>,
    depth: nat,
    seen: Seq<Seq<char>>,
)
    requires
        page_spec(fs, join_spec(dir, path), name) matches Ok(page) && page.fm.nav.len() > 0,
    ensures
        leaf_spec(fs, join_spec(dir, path), name, seen) matches Err(e) && e.kind.class_spec()
            == ErrorClass::Structure && e.path == join_spec(dir, path),
        item_spec(fs, NavElemView::File { name, path }, dir, depth, seen) matches Err(e)
            && e.kind.class_spec() == ErrorClass::Structure && e.path == join_spec(dir, path),
        !uses_spec(seen, join_spec(dir, path)) ==> item_spec(
            fs,
            NavElemView::File { name, path },
            dir,
            depth,
            seen,
        ) == Err::<NavItemView, Failure>(
            Failure { kind: ErrorKind::UnexpectedNav, path: join_spec(dir, path) },
        ),
{
}

/// A page has one source for its name. Where its document gives one and the
/// entry gives one too, there is no page; otherwise the name is that of the
/// document, else that of the entry, else the title.
pub proof fn lemma_one_name(path: Seq<char>, given: Option<Seq<char>>, raw: Seq<char>)
    ensures
        forall|own: Seq<char>, title: Seq<char>|
            given is Some ==> #[trigger] resolve_name_spec(Some(own), given, title) is None,
        forall|own: Seq<char>, title: Seq<char>| #[trigger]
            resolve_name_spec(Some(own), None, title) == Some(own),
        forall|title: Seq<char>| #[trigger]
            resolve_name_spec(None, given, title) == Some(
                match given {
                    Some(given) => given,
                    None => title,
                },
            ),
        page_of_text(path, given, raw) matches Ok(page) ==> {
            &&& !(page.fm.name is Some && given is Some)
            &&& take_front_matter_spec(raw) matches Ok((_, body))
            &&& title_spec(markdown_events(body, MD_OPTIONS, 3)) matches Ok(title)
            &&& resolve_name_spec(page.fm.name, given, title) == Some(page.name)
        },
{
}

/// The paths of the entries of a listing that are taken as pages, in the
/// order of the listing.
pub open spec fn listed_paths(entries: Seq<SourceView>) -> Seq<Seq<char>>
    decreases entries.len(),
{
    if entries.len() == 0 {
        Seq::empty()
    } else if listed(entries.last()) {
        listed_paths(entries.drop_last()).push(entries.last()->File_path)
    } else {
        listed_paths(entries.drop_last())
    }
}

/// A listing gives one page for each document that lies directly in the
/// directory and is no index document, under the path of that document,
/// and no other page.
pub proof fn lemma_listed_paths(fs: Seq<SourceView>, entries: Seq<SourceView>, seen: Seq<Seq<char>>)
    ensures
        listed_pages(fs, entries, seen) matches Ok(pages) ==> page_paths(pages) == listed_paths(
            entries,
        ),
    decreases entries.len(),
{
    if entries.len() > 0 {
        lemma_listed_paths(fs, entries.drop_last(), seen);
        if let Ok(front) = listed_pages(fs, entries.drop_last(), seen) {
            if listed(entries.last()) {
                lemma_leaf(fs, entries.last()->File_path, None, seen + page_paths(front));
            }
            if let Ok(pages) = listed_pages(fs, entries, seen) {
                assert(page_paths(pages) =~= listed_paths(entries));
            }
        }
    } else {
        assert(page_paths(Seq::<NavPageView>::empty()) =~= listed_paths(entries));
    }
}

/// Whether the resolver gave up because folders lie too deep inside one
/// another.
pub open spec fn gave_up<T>(r: Result<T, Failure>) -> bool {
    r matches Err(e) && e.kind == ErrorKind::TooDeep
}

/// What the resolver gives for a folder does not depend on the depth that
/// it is allowed, unless it gives up.
pub proof fn lemma_folder_deeper(
    fs: Seq<SourceView>,
    path: Seq<char>,
    name: Option<Seq<char>>,
    depth: nat,
    seen: Seq<Seq<char>>,
)
    ensures
        !gave_up(folder_spec(fs, path, name, depth, seen)) ==> folder_spec(
            fs,
            path,
            name,
            depth + 1,
            seen,
        ) == folder_spec(fs, path, name, depth, seen),
    decreases depth, 0nat,
{
    if depth > 0 {
        if let Ok(index) = page_spec(fs, path, name) {
            if let Some(dir) = parent_spec(path) {
                lemma_items_deeper(fs, index.fm.nav, dir, (depth - 1) as nat, seen.push(path));
            }
        }
    }
}

/// What the resolver gives for an entry does not depend on the depth that
/// it is allowed, unless it gives up.
pub proof fn lemma_item_deeper(
    fs: Seq<SourceView>,
    elem: NavElemView,
    dir: Seq<char>,
    depth: nat,
    seen: Seq<Seq<char>>,
)
    ensures
        !gave_up(item_spec(fs, elem, dir, depth, seen)) ==> item_spec(fs, elem, dir, depth + 1, seen)
            == item_spec(fs, elem, dir, depth, seen),
    decreases depth, 2 * elem_size(elem),
{
    match elem {
        NavElemView::File { .. } => {},
        NavElemView::Folder { name, path } => {
            lemma_folder_deeper(
                fs,
                join_spec(join_spec(dir, path), index_name()),
                name,
                depth,
                seen,
            );
        },
        NavElemView::TaggedIndex { name, path } => {
            lemma_folder_deeper(fs, join_spec(dir, path), name, depth, seen);
        },
        NavElemView::Include { .. } => {},
        NavElemView::Category { name, elems } => {
            lemma_items_deeper(fs, elems, dir, depth, seen);
        },
    }
}

/// What the resolver gives for a run of entries does not depend on the
/// depth that it is allowed, unless it gives up.
pub proof fn lemma_items_deeper(
    fs: Seq<SourceView>,
    elems: Seq<NavElemView>,
    dir: Seq<char>,
    depth: nat,
    seen: Seq<Seq<char>>,
)
    ensures
        !gave_up(items_spec(fs, elems, dir, depth, seen)) ==> items_spec(
            fs,
            elems,
            dir,
            depth + 1,
            seen,
        ) == items_spec(fs, elems, dir, depth, seen),
    decreases depth, 2 * elems_size(elems) + 1,
{
    if elems.len() > 0 {
        lemma_items_deeper(fs, elems.drop_last(), dir, depth, seen);
        if let Ok(front) = items_spec(fs, elems.drop_last(), dir, depth, seen) {
            lemma_item_deeper(fs, elems.last(), dir, depth, seen + page_paths(items_pages(front)));
        }
    }
}

/// No two of the paths are the same path.
pub open spec fn distinct_paths(paths: Seq<Seq<char>>) -> bool {
    forall|i: int, j: int|
        0 <= i < paths.len() && 0 <= j < paths.len() && i != j ==> !same_path(
            #[trigger] paths[i],
            #[trigger] paths[j],
        )
}

/// The paths are new to a tree that holds pages under the paths `seen`:
/// none of them is the same path as one of `seen`, and no two of them are
/// the same path.
pub open spec fn fresh(seen: Seq<Seq<char>>, paths: Seq<Seq<char>>) -> bool {
    &&& distinct_paths(paths)
    &&& forall|i: int| 0 <= i < paths.len() ==> !uses_spec(seen, #[trigger] paths[i])
}

/// Paths that are new to a tree, and more paths that are new to the tree
/// with the first among its pages, are new to the tree all together.
pub proof fn lemma_fresh_add(seen: Seq<Seq<char>>, a: Seq<Seq<char>>, b: Seq<Seq<char>>)
    requires
        fresh(seen, a),
        fresh(seen + a, b),
    ensures
        fresh(seen, a + b),
{
    let c = a + b;
    assert forall|i: int| 0 <= i < c.len() implies !uses_spec(seen, #[trigger] c[i]) by {
        if i >= a.len() {
            let x = b[i - a.len()];
            assert(!uses_spec(seen + a, x));
            if uses_spec(seen, x) {
                let w = choose|w: int| 0 <= w < seen.len() && same_path(#[trigger] seen[w], x);
                assert(same_path((seen + a)[w], x));
            }
        } else {
            assert(c[i] == a[i]);
        }
    }
    assert forall|i: int, j: int|
        0 <= i < c.len() && 0 <= j < c.len() && i != j implies !same_path(
        #[trigger] c[i],
        #[trigger] c[j],
    ) by {
        if i < a.len() && j < a.len() {
            assert(c[i] == a[i] && c[j] == a[j]);
        } else if i >= a.len() && j >= a.len() {
            assert(c[i] == b[i - a.len()] && c[j] == b[j - a.len()]);
        } else if i < a.len() {
            let x = b[j - a.len()];
            assert(!uses_spec(seen + a, x));
            if same_path(a[i], x) {
                assert(same_path((seen + a)[seen.len() + i], x));
            }
        } else {
            let x = b[i - a.len()];
            assert(!uses_spec(seen + a, x));
            if same_path(x, a[j]) {
                assert(same_path((seen + a)[seen.len() + j], x));
            }
        }
    }
}

/// The pages of a run of items that are all pages are those pages.
proof fn lemma_pages_of_page_items(pages: Seq<NavPageView>)
    ensures
        items_pages(page_items(pages)) == pages,
    decreases pages.len(),
{
    if pages.len() == 0 {
        assert(page_items(pages) =~= Seq::<NavItemView>::empty());
        assert(items_pages(page_items(pages)) =~= pages);
    } else {
        lemma_pages_of_page_items(pages.drop_last());
        assert(page_items(pages).drop_last() =~= page_items(pages.drop_last()));
        assert(page_items(pages).last() == NavItemView::Page(pages.last()));
        assert(item_pages(NavItemView::Page(pages.last())) =~= seq![pages.last()]);
        assert(items_pages(page_items(pages)) == items_pages(page_items(pages).drop_last())
            + item_pages(page_items(pages).last()));
        assert(items_pages(page_items(pages)) =~= pages);
    }
}

/// The pages of a listing in the order of their names, as pages: each of
/// them is one of the pages of the listing.
pub open spec fn sorted_page_run(pages: Seq<NavPageView>) -> Seq<NavPageView> {
    Seq::new(sorted_pages(pages).len(), |k: int| sorted_pages(pages)[k]->Page_0)
}

/// Pages whose paths are new to a tree are so in the order of their names
/// too, and the items in that order are those pages.
pub proof fn lemma_sorted_fresh(seen: Seq<Seq<char>>, pages: Seq<NavPageView>)
    requires
        fresh(seen, page_paths(pages)),
    ensures
        sorted_pages(pages) == page_items(sorted_page_run(pages)),
        items_pages(sorted_pages(pages)) == sorted_page_run(pages),
        forall|k: int|
            0 <= k < sorted_page_run(pages).len() ==> pages.contains(
                #[trigger] sorted_page_run(pages)[k],
            ),
        fresh(seen, page_paths(items_pages(sorted_pages(pages)))),
    decreases pages.len(),
{
    let run = sorted_page_run(pages);
    if pages.len() == 0 {
        assert(sorted_pages(pages) =~= page_items(run));
    } else {
        let front_pages = pages.drop_last();
        let x = pages.last();
        assert(fresh(seen, page_paths(front_pages))) by {
            assert forall|i: int| 0 <= i < front_pages.len() implies page_paths(front_pages)[i]
                == page_paths(pages)[i] by {}
        }
        lemma_sorted_fresh(seen, front_pages);
        let front = sorted_pages(front_pages);
        let front_run = sorted_page_run(front_pages);
        let p = insertion_point(front, item_name(NavItemView::Page(x)));
        lemma_insertion_point(front, item_name(NavItemView::Page(x)));
        let after = front.insert(p, NavItemView::Page(x));
        assert(after == sorted_pages(pages));
        assert forall|k: int| 0 <= k < run.len() implies pages.contains(#[trigger] run[k]) by {
            if k < p {
                assert(after[k] == front[k]);
                assert(front_pages.contains(front_run[k]));
                let i = choose|i: int| 0 <= i < front_pages.len() && front_pages[i] == front_run[k];
                assert(pages[i] == run[k]);
            } else if k == p {
                assert(pages[pages.len() - 1] == run[k]);
            } else {
                assert(after[k] == front[k - 1]);
                assert(front_pages.contains(front_run[k - 1]));
                let i = choose|i: int|
                    0 <= i < front_pages.len() && front_pages[i] == front_run[k - 1];
                assert(pages[i] == run[k]);
            }
        }
        assert(after =~= page_items(run)) by {
            assert forall|k: int| 0 <= k < after.len() implies after[k] == NavItemView::Page(
                run[k],
            ) by {
                if k < p {
                    assert(after[k] == front[k]);
                    assert(front[k] == page_items(front_run)[k]);
                } else if k > p {
                    assert(after[k] == front[k - 1]);
                    assert(front[k - 1] == page_items(front_run)[k - 1]);
                }
            }
        }
        lemma_pages_of_page_items(run);
        let paths = page_paths(run);
        let front_paths = page_paths(front_run);
        assert(items_pages(front) == front_run);
        // the page that comes in is new to the pages that are in order already
        assert forall|k: int| 0 <= k < front_run.len() implies !same_path(
            #[trigger] front_paths[k],
            x.path,
        ) && !same_path(x.path, front_paths[k]) by {
            assert(front_pages.contains(front_run[k]));
            let i = choose|i: int| 0 <= i < front_pages.len() && front_pages[i] == front_run[k];
            assert(page_paths(pages)[i] == front_paths[k]);
            assert(page_paths(pages)[pages.len() - 1] == x.path);
        }
        assert(!uses_spec(seen, x.path)) by {
            assert(page_paths(pages)[pages.len() - 1] == x.path);
        }
        assert forall|k: int| 0 <= k < paths.len() implies !uses_spec(seen, #[trigger] paths[k]) by {
            if k < p {
                assert(after[k] == front[k]);
                assert(paths[k] == front_paths[k]);
            } else if k > p {
                assert(after[k] == front[k - 1]);
                assert(paths[k] == front_paths[k - 1]);
            }
        }
        assert forall|k: int, l: int|
            0 <= k < paths.len() && 0 <= l < paths.len() && k != l implies !same_path(
            #[trigger] paths[k],
            #[trigger] paths[l],
        ) by {
            let fk = if k < p {
                k
            } else {
                k - 1
            };
            let fl = if l < p {
                l
            } else {
                l - 1
            };
            if k != p {
                assert(after[k] == front[fk]);
                assert(paths[k] == front_paths[fk]);
            }
            if l != p {
                assert(after[l] == front[fl]);
                assert(paths[l] == front_paths[fl]);
            }
        }
    }
}

/// The pages of a listing are new to the tree, each under its own path.
pub proof fn lemma_listed_fresh(fs: Seq<SourceView>, entries: Seq<SourceView>, seen: Seq<Seq<char>>)
    ensures
        listed_pages(fs, entries, seen) matches Ok(pages) ==> fresh(seen, page_paths(pages)),
    decreases entries.len(),
{
    if entries.len() > 0 {
        lemma_listed_fresh(fs, entries.drop_last(), seen);
        if let Ok(front) = listed_pages(fs, entries.drop_last(), seen) {
            if listed(entries.last()) {
                let path = entries.last()->File_path;
                lemma_leaf(fs, path, None, seen + page_paths(front));
                if let Ok(page) = leaf_spec(fs, path, None, seen + page_paths(front)) {
                    assert(fresh(seen + page_paths(front), seq![path]));
                    lemma_fresh_add(seen, page_paths(front), seq![path]);
                    assert(page_paths(front.push(page)) =~= page_paths(front) + seq![path]);
                }
            }
        }
    }
}

/// The pages of a folder that the resolver gives are new to the tree, each
/// under its own path.
pub proof fn lemma_folder_fresh(
    fs: Seq<SourceView>,
    path: Seq<char>,
    name: Option<Seq<char>>,
    depth: nat,
    seen: Seq<Seq<char>>,
)
    ensures
        folder_spec(fs, path, name, depth, seen) matches Ok(folder) ==> fresh(
            seen,
            page_paths(folder_pages(folder)),
        ),
    decreases depth, 0nat,
{
    if let Ok(folder) = folder_spec(fs, path, name, depth, seen) {
        let dir = parent_spec(path)->Some_0;
        lemma_items_fresh(fs, folder.index.fm.nav, dir, (depth - 1) as nat, seen.push(path));
        let below = page_paths(items_pages(folder.children));
        assert(fresh(seen, seq![path]));
        assert(seen.push(path) =~= seen + seq![path]);
        lemma_fresh_add(seen, seq![path], below);
        assert(page_paths(folder_pages(folder)) =~= seq![path] + below);
    }
}

/// The pages of an item that the resolver gives are new to the tree, each
/// under its own path.
pub proof fn lemma_item_fresh(
    fs: Seq<SourceView>,
    elem: NavElemView,
    dir: Seq<char>,
    depth: nat,
    seen: Seq<Seq<char>>,
)
    ensures
        item_spec(fs, elem, dir, depth, seen) matches Ok(item) ==> fresh(
            seen,
            page_paths(item_pages(item)),
        ),
    decreases depth, 2 * elem_size(elem),
{
    if let Ok(item) = item_spec(fs, elem, dir, depth, seen) {
        match elem {
            NavElemView::File { name, path } => {
                lemma_leaf(fs, join_spec(dir, path), name, seen);
                assert(page_paths(item_pages(item)) =~= seq![join_spec(dir, path)]);
            },
            NavElemView::Folder { name, path } => {
                lemma_folder_fresh(
                    fs,
                    join_spec(join_spec(dir, path), index_name()),
                    name,
                    depth,
                    seen,
                );
            },
            NavElemView::TaggedIndex { name, path } => {
                lemma_folder_fresh(fs, join_spec(dir, path), name, depth, seen);
            },
            NavElemView::Include { name, path } => {
                let entries = dir_among(fs, join_spec(dir, path))->Some_0;
                let pages = listed_pages(fs, entries, seen)->Ok_0;
                lemma_listed_fresh(fs, entries, seen);
                lemma_sorted_fresh(seen, pages);
            },
            NavElemView::Category { name, elems } => {
                lemma_items_fresh(fs, elems, dir, depth, seen);
            },
        }
    }
}

/// The pages of the items that the resolver gives for a run of entries are
/// new to the tree, each under its own path.
pub proof fn lemma_items_fresh(
    fs: Seq<SourceView>,
    elems: Seq<NavElemView>,
    dir: Seq<char>,
    depth: nat,
    seen: Seq<Seq<char>>,
)
    ensures
        items_spec(fs, elems, dir, depth, seen) matches Ok(items) ==> fresh(
            seen,
            page_paths(items_pages(items)),
        ),
    decreases depth, 2 * elems_size(elems) + 1,
{
    if elems.len() > 0 {
        lemma_items_fresh(fs, elems.drop_last(), dir, depth, seen);
        if let Ok(front) = items_spec(fs, elems.drop_last(), dir, depth, seen) {
            let front_paths = page_paths(items_pages(front));
            lemma_item_fresh(fs, elems.last(), dir, depth, seen + front_paths);
            if let Ok(item) = item_spec(fs, elems.last(), dir, depth, seen + front_paths) {
                let items = front.push(item);
                lemma_fresh_add(seen, front_paths, page_paths(item_pages(item)));
                assert(items.drop_last() =~= front);
                assert(page_paths(items_pages(items)) =~= front_paths + page_paths(
                    item_pages(item),
                ));
            }
        }
    }
}

/// Every page of a tree that the resolver gives has a path of its own: no
/// two pages of the walk lie under the same path.
pub proof fn lemma_unique_paths(
    fs: Seq<SourceView>,
    path: Seq<char>,
    name: Option<Seq<char>>,
    depth: nat,
)
    ensures
        folder_spec(fs, path, name, depth, Seq::empty()) matches Ok(folder) ==> forall|
            i: int,
            j: int,
        |
            0 <= i < folder_pages(folder).len() && 0 <= j < folder_pages(folder).len() && i != j
                ==> !same_path(
                (#[trigger] folder_pages(folder)[i]).path,
                (#[trigger] folder_pages(folder)[j]).path,
            ),
{
    lemma_folder_fresh(fs, path, name, depth, Seq::empty());
    if let Ok(folder) = folder_spec(fs, path, name, depth, Seq::empty()) {
        let pages = folder_pages(folder);
        assert forall|i: int, j: int|
            0 <= i < pages.len() && 0 <= j < pages.len() && i != j implies !same_path(
            (#[trigger] pages[i]).path,
            (#[trigger] pages[j]).path,
        ) by {
            assert(page_paths(pages)[i] == pages[i].path);
            assert(page_paths(pages)[j] == pages[j].path);
        }
    }
}

/// Entries at the end of a listing that are not taken as pages make no
/// difference to its pages.
pub proof fn lemma_listed_skip(
    fs: Seq<SourceView>,
    entries: Seq<SourceView>,
    seen: Seq<Seq<char>>,
    n: int,
)
    requires
        0 <= n <= entries.len(),
        forall|k: int| n <= k < entries.len() ==> !listed(#[trigger] entries[k]),
    ensures
        listed_pages(fs, entries, seen) == listed_pages(fs, entries.take(n), seen),
    decreases entries.len(),
{
    if n == entries.len() {
        assert(entries.take(n) =~= entries);
    } else {
        assert(!listed(entries[entries.len() - 1]));
        assert(entries.drop_last().take(n) =~= entries.take(n));
        assert forall|k: int| n <= k < entries.drop_last().len() implies !listed(
            #[trigger] entries.drop_last()[k],
        ) by {
            assert(entries.drop_last()[k] == entries[k]);
        }
        lemma_listed_skip(fs, entries.drop_last(), seen, n);
    }
}

/// The pages of a listing in which only the entries at `i` and, behind it,
/// at `j` are taken as pages.
proof fn lemma_listed_two(
    fs: Seq<SourceView>,
    entries: Seq<SourceView>,
    seen: Seq<Seq<char>>,
    i: int,
    j: int,
    first: NavPageView,
    second: NavPageView,
)
    requires
        0 <= i < j < entries.len(),
        listed(entries[i]),
        listed(entries[j]),
        forall|k: int|
            0 <= k < entries.len() && k != i && k != j ==> !listed(#[trigger] entries[k]),
        page_spec(fs, entries[i]->File_path, None) == Ok::<NavPageView, Failure>(first),
        page_spec(fs, entries[j]->File_path, None) == Ok::<NavPageView, Failure>(second),
        first.fm.nav.len() == 0,
        second.fm.nav.len() == 0,
        !uses_spec(seen, entries[i]->File_path),
        !uses_spec(seen, entries[j]->File_path),
        !same_path(entries[i]->File_path, entries[j]->File_path),
    ensures
        listed_pages(fs, entries, seen) == Ok::<Seq<NavPageView>, Failure>(seq![first, second]),
{
    let none = Seq::<NavPageView>::empty();
    // nothing in front of the first
    let head = entries.take(i);
    assert forall|k: int| 0 <= k < head.len() implies !listed(#[trigger] head[k]) by {
        assert(head[k] == entries[k]);
    }
    lemma_listed_skip(fs, head, seen, 0);
    assert(head.take(0) =~= Seq::<SourceView>::empty());
    assert(listed_pages(fs, head, seen) == Ok::<Seq<NavPageView>, Failure>(none));
    // the first
    let one = entries.take(i + 1);
    assert(one.drop_last() =~= head);
    assert(one.last() == entries[i]);
    assert(seen + page_paths(none) =~= seen);
    assert(first.path == entries[i]->File_path);
    assert(none.push(first) =~= seq![first]);
    assert(listed_pages(fs, one, seen) == Ok::<Seq<NavPageView>, Failure>(seq![first]));
    // nothing between the two
    let middle = entries.take(j);
    assert forall|k: int| i + 1 <= k < middle.len() implies !listed(#[trigger] middle[k]) by {
        assert(middle[k] == entries[k]);
    }
    lemma_listed_skip(fs, middle, seen, i + 1);
    assert(middle.take(i + 1) =~= one);
    // the second
    let two = entries.take(j + 1);
    assert(two.drop_last() =~= middle);
    assert(two.last() == entries[j]);
    let now = seen + page_paths(seq![first]);
    assert(!uses_spec(now, entries[j]->File_path)) by {
        if uses_spec(now, entries[j]->File_path) {
            let w = choose|w: int|
                0 <= w < now.len() && same_path(#[trigger] now[w], entries[j]->File_path);
            if w < seen.len() {
                assert(same_path(seen[w], entries[j]->File_path));
            } else {
                assert(now[w] == first.path);
            }
        }
    }
    assert(seq![first].push(second) =~= seq![first, second]);
    assert(listed_pages(fs, two, seen) == Ok::<Seq<NavPageView>, Failure>(seq![first, second]));
    // nothing behind the second
    lemma_listed_skip(fs, entries, seen, j + 1);
}

/// A listing of a directory in which two documents count. Whatever else
/// lies in the directory (its index document, files that are no documents,
/// directories) and in whatever order the directory was listed, the
/// category holds the pages of the two documents and nothing else, the page
/// of the smaller name in front.
pub proof fn lemma_listing_of_two(
    fs: Seq<SourceView>,
    dir: Seq<char>,
    name: Seq<char>,
    seen: Seq<Seq<char>>,
    entries: Seq<SourceView>,
    i: int,
    j: int,
    a: NavPageView,
    b: NavPageView,
)
    requires
        dir_among(fs, dir) == Some(entries),
        0 <= i < entries.len(),
        0 <= j < entries.len(),
        i != j,
        listed(entries[i]),
        listed(entries[j]),
        forall|k: int|
            0 <= k < entries.len() && k != i && k != j ==> !listed(#[trigger] entries[k]),
        page_spec(fs, entries[i]->File_path, None) == Ok::<NavPageView, Failure>(a),
        page_spec(fs, entries[j]->File_path, None) == Ok::<NavPageView, Failure>(b),
        a.fm.nav.len() == 0,
        b.fm.nav.len() == 0,
        !uses_spec(seen, entries[i]->File_path),
        !uses_spec(seen, entries[j]->File_path),
        !same_path(entries[i]->File_path, entries[j]->File_path),
        text_le(a.name, b.name),
        a.name != b.name,
    ensures
        include_spec(fs, dir, name, seen) == Ok::<NavCategoryView, Failure>(
            NavCategoryView {
                name,
                children: seq![NavItemView::Page(a), NavItemView::Page(b)],
            },
        ),
{
    let none = Seq::<NavItemView>::empty();
    let item_a = NavItemView::Page(a);
    let item_b = NavItemView::Page(b);
    assert(sorted_pages(Seq::<NavPageView>::empty()) =~= none);
    assert(none.insert(0, item_a) =~= seq![item_a]);
    assert(none.insert(0, item_b) =~= seq![item_b]);
    if i < j {
        lemma_listed_two(fs, entries, seen, i, j, a, b);
        let pages = seq![a, b];
        assert(pages.drop_last() =~= seq![a]);
        assert(seq![a].drop_last() =~= Seq::<NavPageView>::empty());
        assert(sorted_pages(seq![a]) =~= seq![item_a]);
        assert(seq![item_a].last() == item_a);
        assert(insertion_point(seq![item_a], b.name) == 1);
        assert(seq![item_a].insert(1, item_b) =~= seq![item_a, item_b]);
        assert(sorted_pages(pages) =~= seq![item_a, item_b]);
    } else {
        lemma_listed_two(fs, entries, seen, j, i, b, a);
        let pages = seq![b, a];
        assert(pages.drop_last() =~= seq![b]);
        assert(seq![b].drop_last() =~= Seq::<NavPageView>::empty());
        assert(sorted_pages(seq![b]) =~= seq![item_b]);
        assert(seq![item_b].last() == item_b);
        assert(seq![item_b].drop_last() =~= none);
        if text_le(b.name, a.name) {
            lemma_text_le_antisymmetric(a.name, b.name);
        }
        assert(insertion_point(none, a.name) == 0);
        assert(insertion_point(seq![item_b], a.name) == 0);
        assert(seq![item_b].insert(0, item_a) =~= seq![item_a, item_b]);
        assert(sorted_pages(pages) =~= seq![item_a, item_b]);
    }
}

} // verus!
