//! The resolver: from the navigation entries of an index document to the
//! tree of pages that they name in a source tree.

use vstd::prelude::*;
use crate::front_matter::{
    clone_opt, elem_models, index_name, no_fields, opt_text, FrontMatter, NavElem, NavElemView,
};
use crate::md::{
    build, extract_title_h1, fix, fix_spec, markdown_events, prepend_front_matter, prepend_spec,
    take_front_matter, take_front_matter_spec, title_spec, BlockError, TitleError, MD_OPTIONS,
};
use crate::nav::{
    item_models, item_pages, items_pages, lemma_category_item, lemma_folder_item, page_paths,
    page_ref_models, NavCategory, NavCategoryView, NavFolder, NavFolderView, NavItem,
    NavItemView, NavPage, NavPageView,
};
use crate::path::{
    extension_spec, file_name_spec, join_spec, parent_spec, path_texts, same_path, uses_spec, Path,
};
use crate::source::{dir_among, source_models, text_of, SourceEntry, SourceTree, SourceView};
use crate::text::{same_text, text_before_or_equal, text_le};

verus! {

/// How many folders may lie inside one another. (An index document that
/// names itself as a folder, directly or through others, is found among the
/// pages of the tree before this depth is reached.)
pub const MAX_DEPTH: usize = 128;

/// Why a tree cannot be resolved.
#[derive(Debug, Clone, Copy, PartialEq, Eq)]
pub enum ErrorKind {
    /// The document is missing or cannot be read.
    Unreadable,
    /// The directory is missing.
    UnreadableDir,
    /// The head of the document is no front matter block.
    Block(BlockError),
    /// The front matter of the document cannot be written.
    Unwritable,
    /// The document has no title.
    Title(TitleError),
    /// The document gives itself a name, and so does the entry that names
    /// the document.
    NameConflict,
    /// An index document without navigation entries.
    MissingNav,
    /// A document that is no index document, with navigation entries.
    UnexpectedNav,
    /// An index document where a directory to list was asked for.
    IndexListed,
    /// A document that is already a page of the tree.
    DuplicatePage,
    /// An index document without a directory around it.
    NoDirectory,
    /// More than `MAX_DEPTH` folders inside one another.
    TooDeep,
}

/// The four classes of errors.
#[derive(Debug, Clone, Copy, PartialEq, Eq, Structural)]
pub enum ErrorClass {
    /// A front matter block or a navigation entry that cannot be read or
    /// written.
    Decode,
    /// A tree that is put together wrongly: an index document without
    /// entries, another document with entries, two names for one page.
    Structure,
    /// A file or a directory that is missing or cannot be read.
    Io,
    /// A document without a title.
    Content,
}

impl ErrorKind {
    /// The class of the error.
    pub open spec fn class_spec(self) -> ErrorClass {
        match self {
            ErrorKind::Unreadable | ErrorKind::UnreadableDir => ErrorClass::Io,
            ErrorKind::Block(_) | ErrorKind::Unwritable => ErrorClass::Decode,
            ErrorKind::Title(_) => ErrorClass::Content,
            _ => ErrorClass::Structure,
        }
    }

    /// The class of the error.
    pub fn class(&self) -> (c: ErrorClass)
        ensures
            c == self.class_spec(),
    {
        match self {
            ErrorKind::Unreadable | ErrorKind::UnreadableDir => ErrorClass::Io,
            ErrorKind::Block(_) | ErrorKind::Unwritable => ErrorClass::Decode,
            ErrorKind::Title(_) => ErrorClass::Content,
            _ => ErrorClass::Structure,
        }
    }
}

/// An error of the resolver, with the path at which it arose.
#[derive(Debug, PartialEq)]
pub struct ProcessError {
    pub kind: ErrorKind,
    pub path: Path,
}

/// What a `ProcessError` stands for.
pub ghost struct Failure {
    pub kind: ErrorKind,
    pub path: Seq<char>,
}

impl View for ProcessError {
    type V = Failure;

    open spec fn view(&self) -> Failure {
        Failure { kind: self.kind, path: self.path@ }
    }
}

/// The error of `kind` at `path`.
fn failure(kind: ErrorKind, path: &Path) -> (e: ProcessError)
    ensures
        e@ == (Failure { kind, path: path@ }),
{
    ProcessError { kind, path: path.clone() }
}

/// The extension of a document.
pub open spec fn doc_extension() -> Seq<char> {
    "md"@
}

/// The name of a page: the one that its document gives itself, else the one
/// that the entry gives it, else its title. Nothing where both the document
/// and the entry give one.
pub open spec fn resolve_name_spec(
    own: Option<Seq<char>>,
    given: Option<Seq<char>>,
    title: Seq<char>,
) -> Option<Seq<char>> {
    match own {
        Some(own) => if given is Some {
            None
        } else {
            Some(own)
        },
        None => match given {
            Some(given) => Some(given),
            None => Some(title),
        },
    }
}

/// The name of a page with the names `own` and `given` and the title
/// `title`.
pub fn resolve_name(own: Option<String>, given: Option<String>, title: String) -> (r: Option<
    String,
>)
    ensures
        opt_text(r) == resolve_name_spec(opt_text(own), opt_text(given), title@),
{
    match own {
        Some(own) => {
            if given.is_some() {
                None
            } else {
                Some(own)
            }
        },
        None => match given {
            Some(given) => Some(given),
            None => Some(title),
        },
    }
}

/// The page that a document's text makes under `path`, for an entry that
/// gives it `name`.
pub open spec fn page_of_text(path: Seq<char>, name: Option<Seq<char>>, raw: Seq<char>) -> Result<
    NavPageView,
    Failure,
> {
    match take_front_matter_spec(raw) {
        Err(e) => Err(Failure { kind: ErrorKind::Block(e), path }),
        Ok((fm, body)) => {
            let fm = match fm {
                Some(fm) => fm,
                None => no_fields().found,
            };
            match prepend_spec(fm, fix_spec(body)) {
                None => Err(Failure { kind: ErrorKind::Unwritable, path }),
                Some(fixed) => match title_spec(markdown_events(body, MD_OPTIONS, 3)) {
                    Err(e) => Err(Failure { kind: ErrorKind::Title(e), path }),
                    Ok(title) => match resolve_name_spec(fm.name, name, title) {
                        None => Err(Failure { kind: ErrorKind::NameConflict, path }),
                        Some(name) => Ok(
                            NavPageView {
                                path,
                                name,
                                fm,
                                raw_content: raw,
                                built_content: body,
                                fixed_content: fixed,
                            },
                        ),
                    },
                },
            }
        },
    }
}

/// The page of the document under `path`, for an entry that gives it
/// `name`.
pub open spec fn page_spec(fs: Seq<SourceView>, path: Seq<char>, name: Option<Seq<char>>) -> Result<
    NavPageView,
    Failure,
> {
    match text_of(fs, path) {
        None => Err(Failure { kind: ErrorKind::Unreadable, path }),
        Some(raw) => page_of_text(path, name, raw),
    }
}

/// A page that is no index page: it has no navigation entries.
pub open spec fn no_nav_spec(page: NavPageView) -> Result<NavPageView, Failure> {
    if page.fm.nav.len() == 0 {
        Ok(page)
    } else {
        Err(Failure { kind: ErrorKind::UnexpectedNav, path: page.path })
    }
}

/// The page of a document that is no index document, in a tree that holds
/// pages under the paths `seen` already: no page where the document is one
/// of them.
pub open spec fn leaf_spec(
    fs: Seq<SourceView>,
    path: Seq<char>,
    name: Option<Seq<char>>,
    seen: Seq<Seq<char>>,
) -> Result<NavPageView, Failure> {
    if uses_spec(seen, path) {
        Err(Failure { kind: ErrorKind::DuplicatePage, path })
    } else {
        match page_spec(fs, path, name) {
            Err(e) => Err(e),
            Ok(page) => no_nav_spec(page),
        }
    }
}

/// The name under which an item is listed.
pub open spec fn item_name(item: NavItemView) -> Seq<char> {
    match item {
        NavItemView::Page(page) => page.name,
        NavItemView::Folder(folder) => folder.index.name,
        NavItemView::Category(category) => category.name,
    }
}

/// Where an item of the name `name` goes into `items`: behind the last item
/// whose name is not behind `name`.
pub open spec fn insertion_point(items: Seq<NavItemView>, name: Seq<char>) -> int
    decreases items.len(),
{
    if items.len() == 0 {
        0
    } else if text_le(item_name(items.last()), name) {
        items.len() as int
    } else {
        insertion_point(items.drop_last(), name)
    }
}

/// `items` with `item` put in by its name.
pub open spec fn insert_sorted_spec(items: Seq<NavItemView>, item: NavItemView) -> Seq<
    NavItemView,
> {
    items.insert(insertion_point(items, item_name(item)), item)
}

/// The pages as items in the order of their names: each page is put in
/// behind the pages before it whose names are not behind its own, so that
/// pages of one name stay in the order in which they came.
pub open spec fn sorted_pages(pages: Seq<NavPageView>) -> Seq<NavItemView>
    decreases pages.len(),
{
    if pages.len() == 0 {
        Seq::empty()
    } else {
        insert_sorted_spec(sorted_pages(pages.drop_last()), NavItemView::Page(pages.last()))
    }
}

/// Whether a listed entry is taken as a page: a file with the extension of
/// a document that is no index document.
pub open spec fn listed(entry: SourceView) -> bool {
    match entry {
        SourceView::Dir { .. } => false,
        SourceView::File { path, .. } => extension_spec(path) == Some(doc_extension())
            && file_name_spec(path) != Some(index_name()),
    }
}

/// The pages of the listed entries of a directory, in the order of the
/// listing: the error of the first that makes no page, where there is one.
/// Each page is new to the tree and to the pages before it.
pub open spec fn listed_pages(
    fs: Seq<SourceView>,
    entries: Seq<SourceView>,
    seen: Seq<Seq<char>>,
) -> Result<Seq<NavPageView>, Failure>
    decreases entries.len(),
{
    if entries.len() == 0 {
        Ok(Seq::empty())
    } else {
        match listed_pages(fs, entries.drop_last(), seen) {
            Err(e) => Err(e),
            Ok(front) => if listed(entries.last()) {
                match leaf_spec(fs, entries.last()->File_path, None, seen + page_paths(front)) {
                    Err(e) => Err(e),
                    Ok(page) => Ok(front.push(page)),
                }
            } else {
                Ok(front)
            },
        }
    }
}

/// The category `name` of the documents that lie directly in `dir`. Where
/// `dir` is no directory of the tree, the error says whether an index
/// document was handed in for it.
pub open spec fn include_spec(
    fs: Seq<SourceView>,
    dir: Seq<char>,
    name: Seq<char>,
    seen: Seq<Seq<char>>,
) -> Result<NavCategoryView, Failure> {
    match dir_among(fs, dir) {
        None => if file_name_spec(dir) == Some(index_name()) {
            Err(Failure { kind: ErrorKind::IndexListed, path: dir })
        } else {
            Err(Failure { kind: ErrorKind::UnreadableDir, path: dir })
        },
        Some(entries) => match listed_pages(fs, entries, seen) {
            Err(e) => Err(e),
            Ok(pages) => Ok(NavCategoryView { name, children: sorted_pages(pages) }),
        },
    }
}

/// A bound on the number of entries in an entry, itself and those below
/// it.
pub open spec fn elem_size(elem: NavElemView) -> nat
    decreases elem, 0nat,
{
    match elem {
        NavElemView::Category { elems, .. } => 1 + elems_size(elems),
        _ => 1,
    }
}

/// A bound on the number of entries in a run of entries, with those below
/// them: each entry is counted once more than in `elem_size`.
pub open spec fn elems_size(elems: Seq<NavElemView>) -> nat
    decreases elems, 1nat,
{
    if elems.len() == 0 {
        0
    } else {
        elems_size(elems.drop_last()) + elem_size(elems.last()) + 1
    }
}

/// The folder whose index document lies under `path`, for an entry that
/// gives it `name`, with at most `depth` folders inside one another, in a
/// tree that holds pages under the paths `seen` already. The index document
/// is new to the tree, and so is every page below it when its turn comes.
pub open spec fn folder_spec(
    fs: Seq<SourceView>,
    path: Seq<char>,
    name: Option<Seq<char>>,
    depth: nat,
    seen: Seq<Seq<char>>,
) -> Result<NavFolderView, Failure>
    decreases depth, 0nat,
{
    if depth == 0 {
        Err(Failure { kind: ErrorKind::TooDeep, path })
    } else if uses_spec(seen, path) {
        Err(Failure { kind: ErrorKind::DuplicatePage, path })
    } else {
        match page_spec(fs, path, name) {
            Err(e) => Err(e),
            Ok(index) => match parent_spec(path) {
                None => Err(Failure { kind: ErrorKind::NoDirectory, path }),
                Some(dir) => if index.fm.nav.len() == 0 {
                    Err(Failure { kind: ErrorKind::MissingNav, path })
                } else {
                    match items_spec(fs, index.fm.nav, dir, (depth - 1) as nat, seen.push(path)) {
                        Err(e) => Err(e),
                        Ok(children) => Ok(NavFolderView { index, children }),
                    }
                },
            },
        }
    }
}

/// The item that an entry of an index document in `dir` names, in a tree
/// that holds pages under the paths `seen` already.
pub open spec fn item_spec(
    fs: Seq<SourceView>,
    elem: NavElemView,
    dir: Seq<char>,
    depth: nat,
    seen: Seq<Seq<char>>,
) -> Result<NavItemView, Failure>
    decreases depth, 2 * elem_size(elem),
{
    match elem {
        NavElemView::File { name, path } => match leaf_spec(fs, join_spec(dir, path), name, seen) {
            Err(e) => Err(e),
            Ok(page) => Ok(NavItemView::Page(page)),
        },
        NavElemView::Folder { name, path } => match folder_spec(
            fs,
            join_spec(join_spec(dir, path), index_name()),
            name,
            depth,
            seen,
        ) {
            Err(e) => Err(e),
            Ok(folder) => Ok(NavItemView::Folder(folder)),
        },
        NavElemView::TaggedIndex { name, path } => match folder_spec(
            fs,
            join_spec(dir, path),
            name,
            depth,
            seen,
        ) {
            Err(e) => Err(e),
            Ok(folder) => Ok(NavItemView::Folder(folder)),
        },
        NavElemView::Include { name, path } => match include_spec(
            fs,
            join_spec(dir, path),
            name,
            seen,
        ) {
            Err(e) => Err(e),
            Ok(category) => Ok(NavItemView::Category(category)),
        },
        NavElemView::Category { name, elems } => match items_spec(fs, elems, dir, depth, seen) {
            Err(e) => Err(e),
            Ok(children) => Ok(NavItemView::Category(NavCategoryView { name, children })),
        },
    }
}

/// The items that the entries of an index document in `dir` name, in the
/// order of the entries: the error of the first that names none, where
/// there is one. Each entry is resolved in a tree that holds the pages of
/// the entries before it.
pub open spec fn items_spec(
    fs: Seq<SourceView>,
    elems: Seq<NavElemView>,
    dir: Seq<char>,
    depth: nat,
    seen: Seq<Seq<char>>,
) -> Result<Seq<NavItemView>, Failure>
    decreases depth, 2 * elems_size(elems) + 1,
{
    if elems.len() == 0 {
        Ok(Seq::empty())
    } else {
        match items_spec(fs, elems.drop_last(), dir, depth, seen) {
            Err(e) => Err(e),
            Ok(front) => match item_spec(
                fs,
                elems.last(),
                dir,
                depth,
                seen + page_paths(items_pages(front)),
            ) {
                Err(e) => Err(e),
                Ok(item) => Ok(front.push(item)),
            },
        }
    }
}

/// Where a front part of the entries already fails, the entries fail with
/// the same error.
pub proof fn lemma_items_stop(
    fs: Seq<SourceView>,
    elems: Seq<NavElemView>,
    dir: Seq<char>,
    depth: nat,
    seen: Seq<Seq<char>>,
    n: int,
)
    requires
        0 <= n <= elems.len(),
        items_spec(fs, elems.take(n), dir, depth, seen) is Err,
    ensures
        items_spec(fs, elems, dir, depth, seen) == items_spec(fs, elems.take(n), dir, depth, seen),
    decreases elems.len(),
{
    if n == elems.len() {
        assert(elems.take(n) =~= elems);
    } else {
        assert(elems.drop_last().take(n) =~= elems.take(n));
        lemma_items_stop(fs, elems.drop_last(), dir, depth, seen, n);
    }
}

/// Where a front part of a listing already fails, the listing fails with
/// the same error.
pub proof fn lemma_listed_stop(
    fs: Seq<SourceView>,
    entries: Seq<SourceView>,
    seen: Seq<Seq<char>>,
    n: int,
)
    requires
        0 <= n <= entries.len(),
        listed_pages(fs, entries.take(n), seen) is Err,
    ensures
        listed_pages(fs, entries, seen) == listed_pages(fs, entries.take(n), seen),
    decreases entries.len(),
{
    if n == entries.len() {
        assert(entries.take(n) =~= entries);
    } else {
        assert(entries.drop_last().take(n) =~= entries.take(n));
        lemma_listed_stop(fs, entries.drop_last(), seen, n);
    }
}

/// Each entry of a run is smaller than the run.
pub proof fn lemma_elems_size_index(elems: Seq<NavElemView>, i: int)
    requires
        0 <= i < elems.len(),
    ensures
        elem_size(elems[i]) < elems_size(elems),
    decreases elems.len(),
{
    if i < elems.len() - 1 {
        lemma_elems_size_index(elems.drop_last(), i);
    }
}

/// The result of resolving a page, with its parts replaced by their models.
pub open spec fn page_read(r: Result<NavPage, ProcessError>) -> Result<NavPageView, Failure> {
    match r {
        Ok(page) => Ok(page@),
        Err(e) => Err(e@),
    }
}

/// The result of resolving a folder, with its parts replaced by their
/// models.
pub open spec fn folder_read(r: Result<NavFolder, ProcessError>) -> Result<
    NavFolderView,
    Failure,
> {
    match r {
        Ok(folder) => Ok(folder@),
        Err(e) => Err(e@),
    }
}

/// The result of resolving a category, with its parts replaced by their
/// models.
pub open spec fn category_read(r: Result<NavCategory, ProcessError>) -> Result<
    NavCategoryView,
    Failure,
> {
    match r {
        Ok(category) => Ok(category@),
        Err(e) => Err(e@),
    }
}

/// The result of resolving an entry, with its parts replaced by their
/// models.
pub open spec fn item_read(r: Result<NavItem, ProcessError>) -> Result<NavItemView, Failure> {
    match r {
        Ok(item) => Ok(item@),
        Err(e) => Err(e@),
    }
}

/// The result of resolving entries, with its parts replaced by their
/// models.
pub open spec fn items_read(r: Result<Vec<NavItem>, ProcessError>) -> Result<
    Seq<NavItemView>,
    Failure,
> {
    match r {
        Ok(items) => Ok(item_models(items@)),
        Err(e) => Err(e@),
    }
}

/// The page of the document under `path`, for an entry that gives it `name`.
pub fn process_page(fs: &SourceTree, path: &Path, name: Option<String>) -> (r: Result<
    NavPage,
    ProcessError,
>)
    ensures
        page_read(r) == page_spec(fs@, path@, opt_text(name)),
{
    let raw = match fs.read_to_string(path) {
        Some(raw) => raw,
        None => {
            return Err(failure(ErrorKind::Unreadable, path));
        },
    };
    let (fm, content) = match take_front_matter(raw.as_str()) {
        Ok(parts) => parts,
        Err(e) => {
            return Err(failure(ErrorKind::Block(e), path));
        },
    };
    let fm = match fm {
        Some(fm) => fm,
        None => FrontMatter::default(),
    };
    let built_content = build(content);
    let fixed_body = fix(content);
    let fixed_content = match prepend_front_matter(&fm, fixed_body.as_str()) {
        Some(fixed) => fixed,
        None => {
            return Err(failure(ErrorKind::Unwritable, path));
        },
    };
    // every document has a title, whether its name is taken from it or not
    let title = match extract_title_h1(content) {
        Ok(title) => title,
        Err(e) => {
            return Err(failure(ErrorKind::Title(e), path));
        },
    };
    let name = match resolve_name(clone_opt(&fm.name), name, title) {
        Some(name) => name,
        None => {
            return Err(failure(ErrorKind::NameConflict, path));
        },
    };
    Ok(
        NavPage {
            path: path.clone(),
            name,
            fm,
            raw_content: raw.clone(),
            built_content,
            fixed_content,
        },
    )
}

/// `page`, unless it has navigation entries: only index pages have them.
pub fn ensure_page_has_no_nav(page: NavPage) -> (r: Result<NavPage, ProcessError>)
    ensures
        page_read(r) == no_nav_spec(page@),
{
    if page.fm.nav.len() == 0 {
        Ok(page)
    } else {
        Err(failure(ErrorKind::UnexpectedNav, &page.path))
    }
}

/// Whether one of `seen` is the same path as `path`.
fn is_seen(seen: &Vec<Path>, path: &Path) -> (r: bool)
    ensures
        r == uses_spec(path_texts(seen@), path@),
{
    let ghost used = path_texts(seen@);
    let mut i: usize = 0;
    while i < seen.len()
        invariant
            i <= seen.len(),
            used == path_texts(seen@),
            forall|j: int| 0 <= j < i ==> !same_path(used[j], path@),
        decreases seen.len() - i,
    {
        if seen[i].same_as(path) {
            proof {
                assert(same_path(used[i as int], path@));
            }
            return true;
        }
        i += 1;
    }
    false
}

/// A copy of `seen`.
fn clone_paths(seen: &Vec<Path>) -> (r: Vec<Path>)
    ensures
        path_texts(r@) == path_texts(seen@),
{
    let mut copy: Vec<Path> = Vec::new();
    let mut i: usize = 0;
    while i < seen.len()
        invariant
            i <= seen.len(),
            copy.len() == i,
            forall|j: int| 0 <= j < i ==> (#[trigger] copy[j])@ == seen[j]@,
        decreases seen.len() - i,
    {
        copy.push(seen[i].clone());
        i += 1;
    }
    proof {
        assert(path_texts(copy@) =~= path_texts(seen@));
    }
    copy
}

/// Adds the paths of `pages` to `seen`.
fn see_pages(seen: &mut Vec<Path>, pages: &Vec<&NavPage>)
    ensures
        path_texts(final(seen)@) == path_texts(old(seen)@) + page_paths(page_ref_models(pages@)),
{
    let ghost before = path_texts(seen@);
    let ghost added = page_paths(page_ref_models(pages@));
    let mut i: usize = 0;
    proof {
        assert(before + added.take(0) =~= before);
    }
    while i < pages.len()
        invariant
            i <= pages.len(),
            added == page_paths(page_ref_models(pages@)),
            path_texts(seen@) == before + added.take(i as int),
        decreases pages.len() - i,
    {
        let ghost so_far = path_texts(seen@);
        seen.push(pages[i].path.clone());
        proof {
            assert(path_texts(seen@) =~= so_far.push(pages[i as int]@.path));
            assert(path_texts(seen@) =~= before + added.take(i + 1));
        }
        i += 1;
    }
    proof {
        assert(added.take(i as int) =~= added);
    }
}

/// The page of a document that is no index document and no page of the
/// tree yet.
fn process_leaf(fs: &SourceTree, path: &Path, name: Option<String>, seen: &Vec<Path>) -> (r: Result<
    NavPage,
    ProcessError,
>)
    ensures
        page_read(r) == leaf_spec(fs@, path@, opt_text(name), path_texts(seen@)),
{
    if is_seen(seen, path) {
        return Err(failure(ErrorKind::DuplicatePage, path));
    }
    match process_page(fs, path, name) {
        Ok(page) => ensure_page_has_no_nav(page),
        Err(e) => Err(e),
    }
}

/// The name under which `item` is listed.
fn name_of(item: &NavItem) -> (name: &str)
    ensures
        name@ == item_name(item@),
{
    match item {
        NavItem::Page(page) => page.name.as_str(),
        NavItem::Folder(folder) => {
            proof {
                lemma_folder_item(*folder);
            }
            folder.index.name.as_str()
        },
        NavItem::Category(category) => {
            proof {
                lemma_category_item(*category);
            }
            category.name.as_str()
        },
    }
}

/// Puts `item` into `items` by its name, behind the items of the same name.
pub fn insert_sorted(items: &mut Vec<NavItem>, item: NavItem)
    ensures
        item_models(final(items)@) == insert_sorted_spec(item_models(old(items)@), item@),
{
    let ghost all = item_models(items@);
    let ghost name = item_name(item@);
    let mut at: usize = items.len();
    let mut found = false;
    proof {
        assert(all.take(at as int) =~= all);
    }
    while at > 0 && !found
        invariant
            at <= items.len(),
            all == item_models(items@),
            name == item_name(item@),
            insertion_point(all, name) == insertion_point(all.take(at as int), name),
            found ==> insertion_point(all.take(at as int), name) == at,
        decreases at + (if found { 0int } else { 1int }),
    {
        proof {
            assert(all.take(at as int).last() == items[at - 1]@);
            assert(all.take(at as int).drop_last() =~= all.take(at - 1));
        }
        if text_before_or_equal(name_of(&items[at - 1]), name_of(&item)) {
            found = true;
        } else {
            at -= 1;
        }
    }
    items.insert(at, item);
    proof {
        assert(item_models(items@) =~= all.insert(at as int, item@));
    }
}

/// Whether `path` has the extension of a document.
pub(crate) fn is_document(path: &Path) -> (r: bool)
    ensures
        r == (extension_spec(path@) == Some(doc_extension())),
{
    match path.extension() {
        Some(ext) => same_text(ext, "md"),
        None => false,
    }
}

/// Whether `path` ends in the name of an index document.
fn is_index(path: &Path) -> (r: bool)
    ensures
        r == (file_name_spec(path@) == Some(index_name())),
{
    match path.file_name() {
        Some(name) => same_text(name, "index.md"),
        None => false,
    }
}

/// The category `name` of the documents that lie directly in `dir`, in the
/// order of their names. Directories, files that are no documents and the
/// index document of `dir` are passed over. `seen` holds the paths of the
/// pages that the tree has already.
pub fn process_include(fs: &SourceTree, dir: &Path, name: String, seen: &Vec<Path>) -> (r: Result<
    NavCategory,
    ProcessError,
>)
    ensures
        category_read(r) == include_spec(fs@, dir@, name@, path_texts(seen@)),
{
    let entries = match fs.read_dir(dir) {
        Some(entries) => entries,
        None => {
            if is_index(dir) {
                return Err(failure(ErrorKind::IndexListed, dir));
            }
            return Err(failure(ErrorKind::UnreadableDir, dir));
        },
    };
    let ghost all = source_models(entries@);
    let ghost before = path_texts(seen@);
    let ghost mut pages: Seq<NavPageView> = Seq::empty();
    let mut now = clone_paths(seen);
    let mut children: Vec<NavItem> = Vec::new();
    let mut i: usize = 0;
    proof {
        assert(all.take(0) =~= Seq::<SourceView>::empty());
        assert(item_models(children@) =~= Seq::<NavItemView>::empty());
        assert(before + page_paths(pages) =~= before);
    }
    while i < entries.len()
        invariant
            i <= entries.len(),
            all == source_models(entries@),
            before == path_texts(seen@),
            dir_among(fs@, dir@) == Some(all),
            listed_pages(fs@, all.take(i as int), before) == Ok::<Seq<NavPageView>, Failure>(
                pages,
            ),
            path_texts(now@) == before + page_paths(pages),
            item_models(children@) == sorted_pages(pages),
        decreases entries.len() - i,
    {
        proof {
            assert(all.take(i + 1).drop_last() =~= all.take(i as int));
            assert(all.take(i + 1).last() == entries[i as int]@);
            if listed_pages(fs@, all.take(i + 1), before) is Err {
                lemma_listed_stop(fs@, all, before, i + 1);
            }
        }
        match &entries[i] {
            SourceEntry::Dir { .. } => {},
            SourceEntry::File { path, .. } => {
                if is_document(path) && !is_index(path) {
                    let page = match process_leaf(fs, path, None, &now) {
                        Ok(page) => page,
                        Err(e) => {
                            return Err(e);
                        },
                    };
                    let ghost so_far = path_texts(now@);
                    now.push(page.path.clone());
                    proof {
                        assert(pages.push(page@).drop_last() =~= pages);
                        assert(path_texts(now@) =~= so_far.push(page@.path));
                        assert(path_texts(now@) =~= before + page_paths(pages.push(page@)));
                        pages = pages.push(page@);
                    }
                    insert_sorted(&mut children, NavItem::Page(page));
                }
            },
        }
        i += 1;
    }
    proof {
        assert(all.take(i as int) =~= all);
    }
    Ok(NavCategory { name, children })
}

/// The folder whose index document lies under `path`, for an entry that
/// gives it `name`, with at most `depth` folders inside one another.
/// `seen` holds the paths of the pages that the tree has already: none for
/// the folder at the top.
pub fn process_folder(
    fs: &SourceTree,
    path: &Path,
    name: Option<String>,
    depth: usize,
    seen: &Vec<Path>,
) -> (r: Result<NavFolder, ProcessError>)
    ensures
        folder_read(r) == folder_spec(fs@, path@, opt_text(name), depth as nat, path_texts(seen@)),
    decreases depth, 0nat,
{
    if depth == 0 {
        return Err(failure(ErrorKind::TooDeep, path));
    }
    if is_seen(seen, path) {
        return Err(failure(ErrorKind::DuplicatePage, path));
    }
    let index = match process_page(fs, path, name) {
        Ok(index) => index,
        Err(e) => {
            return Err(e);
        },
    };
    let dir = match path.parent() {
        Some(dir) => dir,
        None => {
            return Err(failure(ErrorKind::NoDirectory, path));
        },
    };
    if index.fm.nav.len() == 0 {
        return Err(failure(ErrorKind::MissingNav, path));
    }
    let mut below = clone_paths(seen);
    below.push(path.clone());
    proof {
        assert(path_texts(below@) =~= path_texts(seen@).push(path@));
    }
    let children = match process_items(fs, &index.fm.nav, &dir, depth - 1, &below) {
        Ok(children) => children,
        Err(e) => {
            return Err(e);
        },
    };
    Ok(NavFolder { index, children })
}

/// The item that the entry `elem` of an index document in `dir` names.
/// `seen` holds the paths of the pages that the tree has already.
pub fn process_item(
    fs: &SourceTree,
    elem: NavElem,
    dir: &Path,
    depth: usize,
    seen: &Vec<Path>,
) -> (r: Result<NavItem, ProcessError>)
    ensures
        item_read(r) == item_spec(fs@, elem@, dir@, depth as nat, path_texts(seen@)),
    decreases depth, 3 * elem_size(elem@),
{
    match elem {
        NavElem::File { name, path } => {
            // a regular page has no navigation entries
            match process_leaf(fs, &dir.join(path.as_str()), name, seen) {
                Ok(page) => Ok(NavItem::Page(page)),
                Err(e) => Err(e),
            }
        },
        NavElem::Folder { name, path } => {
            // `folder/` stands for `folder/index.md`
            let index = dir.join(path.as_str()).join("index.md");
            match process_folder(fs, &index, name, depth, seen) {
                Ok(folder) => {
                    proof {
                        lemma_folder_item(folder);
                    }
                    Ok(NavItem::Folder(folder))
                },
                Err(e) => Err(e),
            }
        },
        NavElem::TaggedIndex { name, path } => {
            match process_folder(fs, &dir.join(path.as_str()), name, depth, seen) {
                Ok(folder) => {
                    proof {
                        lemma_folder_item(folder);
                    }
                    Ok(NavItem::Folder(folder))
                },
                Err(e) => Err(e),
            }
        },
        NavElem::Include { name, path } => {
            match process_include(fs, &dir.join(path.as_str()), name, seen) {
                Ok(category) => {
                    proof {
                        lemma_category_item(category);
                    }
                    Ok(NavItem::Category(category))
                },
                Err(e) => Err(e),
            }
        },
        NavElem::Category { name, elems } => {
            proof {
                assert(elem@->Category_elems =~= elem_models(elems@));
            }
            match process_category(fs, dir, name, elems, depth, seen) {
                Ok(category) => {
                    proof {
                        lemma_category_item(category);
                    }
                    Ok(NavItem::Category(category))
                },
                Err(e) => Err(e),
            }
        },
    }
}

/// The category `name` of the items that `elems` name. The entries of a
/// category are entries of the index document that holds it: they are
/// resolved in `dir`, the directory of that document. `seen` holds the
/// paths of the pages that the tree has already.
pub fn process_category(
    fs: &SourceTree,
    dir: &Path,
    name: String,
    elems: Vec<NavElem>,
    depth: usize,
    seen: &Vec<Path>,
) -> (r: Result<NavCategory, ProcessError>)
    ensures
        category_read(r) == match items_spec(
            fs@,
            elem_models(elems@),
            dir@,
            depth as nat,
            path_texts(seen@),
        ) {
            Err(e) => Err::<NavCategoryView, Failure>(e),
            Ok(children) => Ok(NavCategoryView { name: name@, children }),
        },
    decreases depth, 3 * elems_size(elem_models(elems@)) + 2,
{
    match process_items(fs, &elems, dir, depth, seen) {
        Ok(children) => Ok(NavCategory { name, children }),
        Err(e) => Err(e),
    }
}

/// The items that `elems` name, in the order of `elems`.
fn process_items(
    fs: &SourceTree,
    elems: &Vec<NavElem>,
    dir: &Path,
    depth: usize,
    seen: &Vec<Path>,
) -> (r: Result<Vec<NavItem>, ProcessError>)
    ensures
        items_read(r) == items_spec(
            fs@,
            elem_models(elems@),
            dir@,
            depth as nat,
            path_texts(seen@),
        ),
    decreases depth, 3 * elems_size(elem_models(elems@)) + 1,
{
    let ghost all = elem_models(elems@);
    let ghost before = path_texts(seen@);
    let mut now = clone_paths(seen);
    let mut items: Vec<NavItem> = Vec::new();
    let mut i: usize = 0;
    proof {
        assert(all.take(0) =~= Seq::<NavElemView>::empty());
        assert(item_models(items@) =~= Seq::<NavItemView>::empty());
        assert(before + page_paths(items_pages(item_models(items@))) =~= before);
    }
    while i < elems.len()
        invariant
            i <= elems.len(),
            all == elem_models(elems@),
            before == path_texts(seen@),
            items_spec(fs@, all.take(i as int), dir@, depth as nat, before) == Ok::<
                Seq<NavItemView>,
                Failure,
            >(item_models(items@)),
            path_texts(now@) == before + page_paths(items_pages(item_models(items@))),
        decreases elems.len() - i,
    {
        let ghost done = items@;
        proof {
            assert(all.take(i + 1).drop_last() =~= all.take(i as int));
            assert(all.take(i + 1).last() == elems[i as int]@);
            lemma_elems_size_index(all, i as int);
            if items_spec(fs@, all.take(i + 1), dir@, depth as nat, before) is Err {
                lemma_items_stop(fs@, all, dir@, depth as nat, before, i + 1);
            }
        }
        match process_item(fs, elems[i].clone(), dir, depth, &now) {
            Ok(item) => {
                let ghost so_far = path_texts(now@);
                let pages = item.pages();
                see_pages(&mut now, &pages);
                items.push(item);
                proof {
                    let models = item_models(done).push(item@);
                    assert(item_models(items@) =~= models);
                    assert(models.drop_last() =~= item_models(done));
                    assert(models.last() == item@);
                    assert(page_paths(items_pages(models)) =~= page_paths(
                        items_pages(item_models(done)),
                    ) + page_paths(item_pages(item@)));
                    assert(path_texts(now@) =~= before + page_paths(items_pages(models)));
                }
            },
            Err(e) => {
                return Err(e);
            },
        }
        i += 1;
    }
    proof {
        assert(all.take(i as int) =~= all);
    }
    Ok(items)
}

} // verus!
