//! The resolved navigation tree: pages, folders with an index page, and
//! categories without one; and the walk that visits its pages in order.

use vstd::prelude::*;
use crate::front_matter::{FrontMatter, FrontMatterView};
use crate::path::Path;

verus! {

/// A regular page, such as `example.md`.
#[derive(Debug, PartialEq)]
pub struct NavPage {
    pub path: Path,
    pub name: String,
    pub fm: FrontMatter,
    pub raw_content: String,
    pub built_content: String,
    pub fixed_content: String,
}

/// A folder with an index page, which need not be an `index.md`. The
/// folder's name is that of its index page.
#[derive(Debug, PartialEq)]
pub struct NavFolder {
    pub index: NavPage,
    pub children: Vec<NavItem>,
}

/// A category: a name over some items, with no page of its own.
#[derive(Debug, PartialEq)]
pub struct NavCategory {
    pub name: String,
    pub children: Vec<NavItem>,
}

/// A node of the navigation tree.
#[derive(Debug, PartialEq)]
pub enum NavItem {
    Page(NavPage),
    Folder(NavFolder),
    Category(NavCategory),
}

/// What a `NavPage` stands for.
pub ghost struct NavPageView {
    pub path: Seq<char>,
    pub name: Seq<char>,
    pub fm: FrontMatterView,
    pub raw_content: Seq<char>,
    pub built_content: Seq<char>,
    pub fixed_content: Seq<char>,
}

/// What a `NavFolder` stands for.
pub ghost struct NavFolderView {
    pub index: NavPageView,
    pub children: Seq<NavItemView>,
}

/// What a `NavCategory` stands for.
pub ghost struct NavCategoryView {
    pub name: Seq<char>,
    pub children: Seq<NavItemView>,
}

/// What a `NavItem` stands for.
pub ghost enum NavItemView {
    Page(NavPageView),
    Folder(NavFolderView),
    Category(NavCategoryView),
}

impl View for NavPage {
    type V = NavPageView;

    open spec fn view(&self) -> NavPageView {
        NavPageView {
            path: self.path@,
            name: self.name@,
            fm: self.fm@,
            raw_content: self.raw_content@,
            built_content: self.built_content@,
            fixed_content: self.fixed_content@,
        }
    }
}

impl NavItem {
    /// The item with every page replaced by its model.
    pub open spec fn model(self) -> NavItemView
        decreases self,
    {
        match self {
            NavItem::Page(page) => NavItemView::Page(page@),
            NavItem::Folder(folder) => NavItemView::Folder(
                NavFolderView {
                    index: folder.index@,
                    children: Seq::new(
                        folder.children.len() as nat,
                        |i: int|
                            if 0 <= i < folder.children.len() {
                                folder.children[i].model()
                            } else {
                                NavItemView::Page(folder.index@)
                            },
                    ),
                },
            ),
            NavItem::Category(category) => NavItemView::Category(
                NavCategoryView {
                    name: category.name@,
                    children: Seq::new(
                        category.children.len() as nat,
                        |i: int|
                            if 0 <= i < category.children.len() {
                                category.children[i].model()
                            } else {
                                NavItemView::Category(
                                    NavCategoryView { name: category.name@, children: Seq::empty() },
                                )
                            },
                    ),
                },
            ),
        }
    }
}

impl View for NavItem {
    type V = NavItemView;

    open spec fn view(&self) -> NavItemView {
        self.model()
    }
}

/// The models of a run of items.
pub open spec fn item_models(items: Seq<NavItem>) -> Seq<NavItemView> {
    Seq::new(items.len(), |i: int| items[i]@)
}

/// The paths of a run of pages.
pub open spec fn page_paths(pages: Seq<NavPageView>) -> Seq<Seq<char>> {
    Seq::new(pages.len(), |i: int| pages[i].path)
}

/// The models of a run of borrowed pages.
pub open spec fn page_ref_models(pages: Seq<&NavPage>) -> Seq<NavPageView> {
    Seq::new(pages.len(), |i: int| pages[i]@)
}

impl View for NavFolder {
    type V = NavFolderView;

    open spec fn view(&self) -> NavFolderView {
        NavFolderView { index: self.index@, children: item_models(self.children@) }
    }
}

impl View for NavCategory {
    type V = NavCategoryView;

    open spec fn view(&self) -> NavCategoryView {
        NavCategoryView { name: self.name@, children: item_models(self.children@) }
    }
}

/// The model of a folder as an item is the model of the folder.
pub proof fn lemma_folder_item(folder: NavFolder)
    ensures
        NavItem::Folder(folder)@ == NavItemView::Folder(folder@),
{
    assert(NavItem::Folder(folder)@->Folder_0.children =~= folder@.children);
}

/// The model of a category as an item is the model of the category.
pub proof fn lemma_category_item(category: NavCategory)
    ensures
        NavItem::Category(category)@ == NavItemView::Category(category@),
{
    assert(NavItem::Category(category)@->Category_0.children =~= category@.children);
}

/// The pages of an item, in the order of the walk: the index page of a
/// folder, then the pages of each child in turn; the pages of each child of
/// a category in turn.
pub open spec fn item_pages(item: NavItemView) -> Seq<NavPageView>
    decreases item, 0nat,
{
    match item {
        NavItemView::Page(page) => seq![page],
        NavItemView::Folder(folder) => seq![folder.index] + items_pages(folder.children),
        NavItemView::Category(category) => items_pages(category.children),
    }
}

/// The pages of a run of items: those of the first, then those of the
/// second, and so on.
pub open spec fn items_pages(items: Seq<NavItemView>) -> Seq<NavPageView>
    decreases items, 1nat,
{
    if items.len() == 0 {
        Seq::empty()
    } else {
        items_pages(items.drop_last()) + item_pages(items.last())
    }
}

/// The pages of a folder: its index page, then the pages of its children.
pub open spec fn folder_pages(folder: NavFolderView) -> Seq<NavPageView> {
    seq![folder.index] + items_pages(folder.children)
}

/// Adds the pages of `item` to `out`.
fn collect_item<'a>(item: &'a NavItem, out: &mut Vec<&'a NavPage>)
    ensures
        page_ref_models(final(out)@) == page_ref_models(old(out)@) + item_pages(item@),
    decreases item, 0nat,
{
    let ghost before = page_ref_models(out@);
    match item {
        NavItem::Page(page) => {
            out.push(page);
            proof {
                assert(page_ref_models(out@) =~= before + seq![page@]);
            }
        },
        NavItem::Folder(folder) => {
            proof {
                lemma_folder_item(*folder);
            }
            out.push(&folder.index);
            proof {
                assert(page_ref_models(out@) =~= before + seq![folder.index@]);
            }
            collect_items(folder.children.as_slice(), out);
            proof {
                assert(page_ref_models(out@) =~= before + item_pages(item@));
            }
        },
        NavItem::Category(category) => {
            proof {
                lemma_category_item(*category);
            }
            collect_items(category.children.as_slice(), out);
        },
    }
}

/// Adds the pages of `items` to `out`.
fn collect_items<'a>(items: &'a [NavItem], out: &mut Vec<&'a NavPage>)
    ensures
        page_ref_models(final(out)@) == page_ref_models(old(out)@) + items_pages(
            item_models(items@),
        ),
    decreases items@, 1nat,
{
    let ghost before = page_ref_models(out@);
    let ghost all = item_models(items@);
    let mut i: usize = 0;
    proof {
        assert(all.take(0) =~= Seq::<NavItemView>::empty());
        assert(before + items_pages(all.take(0)) =~= before);
    }
    while i < items.len()
        invariant
            i <= items.len(),
            all == item_models(items@),
            page_ref_models(out@) == before + items_pages(all.take(i as int)),
        decreases items.len() - i,
    {
        proof {
            assert(all.take(i + 1).drop_last() =~= all.take(i as int));
            assert(all.take(i + 1).last() == items[i as int]@);
        }
        collect_item(&items[i], out);
        proof {
            assert(page_ref_models(out@) =~= before + items_pages(all.take(i + 1)));
        }
        i += 1;
    }
    proof {
        assert(all.take(i as int) =~= all);
    }
}

/// The pages of `data`, in the order of the walk.
pub fn nav_children_iter<'a>(data: &'a [NavItem]) -> (pages: Vec<&'a NavPage>)
    ensures
        page_ref_models(pages@) == items_pages(item_models(data@)),
{
    let mut pages: Vec<&'a NavPage> = Vec::new();
    proof {
        assert(page_ref_models(pages@) =~= Seq::<NavPageView>::empty());
    }
    collect_items(data, &mut pages);
    proof {
        assert(Seq::<NavPageView>::empty() + items_pages(item_models(data@)) =~= items_pages(
            item_models(data@),
        ));
    }
    pages
}

impl NavPage {
    /// The page itself.
    pub fn pages(&self) -> (pages: Vec<&NavPage>)
        ensures
            page_ref_models(pages@) == seq![self@],
    {
        let mut pages: Vec<&NavPage> = Vec::new();
        pages.push(self);
        proof {
            assert(page_ref_models(pages@) =~= seq![self@]);
        }
        pages
    }
}

impl NavFolder {
    /// The pages of the folder, in the order of the walk.
    pub fn pages(&self) -> (pages: Vec<&NavPage>)
        ensures
            page_ref_models(pages@) == folder_pages(self@),
    {
        let mut pages = self.index.pages();
        collect_items(self.children.as_slice(), &mut pages);
        pages
    }
}

impl NavCategory {
    /// The pages of the category, in the order of the walk.
    pub fn pages(&self) -> (pages: Vec<&NavPage>)
        ensures
            page_ref_models(pages@) == items_pages(self@.children),
    {
        nav_children_iter(self.children.as_slice())
    }
}

impl NavItem {
    /// The pages of the item, in the order of the walk.
    pub fn pages(&self) -> (pages: Vec<&NavPage>)
        ensures
            page_ref_models(pages@) == item_pages(self@),
    {
        let mut pages: Vec<&NavPage> = Vec::new();
        proof {
            assert(page_ref_models(pages@) =~= Seq::<NavPageView>::empty());
        }
        collect_item(self, &mut pages);
        proof {
            assert(Seq::<NavPageView>::empty() + item_pages(self@) =~= item_pages(self@));
        }
        pages
    }
}

/// A place in a walk: the pages of the walk, and how many of them have been
/// handed out.
pub struct PageCursor<'a> {
    pages: Vec<&'a NavPage>,
    taken: usize,
}

impl<'a> PageCursor<'a> {
    /// The pages that are still to come.
    pub closed spec fn remaining(&self) -> Seq<NavPageView> {
        if self.taken <= self.pages.len() {
            page_ref_models(self.pages@).skip(self.taken as int)
        } else {
            Seq::empty()
        }
    }

    /// The start of a walk over `pages`.
    fn new(pages: Vec<&'a NavPage>) -> (cursor: PageCursor<'a>)
        ensures
            cursor.remaining() == page_ref_models(pages@),
    {
        proof {
            assert(page_ref_models(pages@).skip(0) =~= page_ref_models(pages@));
        }
        PageCursor { pages, taken: 0 }
    }

    /// The next page of the walk, where there is one.
    fn next(&mut self) -> (r: Option<&'a NavPage>)
        ensures
            match r {
                Some(page) => old(self).remaining().len() > 0 && page@ == old(self).remaining()[0]
                    && final(self).remaining() == old(self).remaining().drop_first(),
                None => old(self).remaining().len() == 0 && final(self).remaining().len() == 0,
            },
    {
        if self.taken < self.pages.len() {
            let page = self.pages[self.taken];
            proof {
                let all = page_ref_models(self.pages@);
                assert(all.skip(self.taken as int).drop_first() =~= all.skip(self.taken + 1));
            }
            self.taken += 1;
            Some(page)
        } else {
            None
        }
    }

    /// How many pages are still to come.
    fn len(&self) -> (n: usize)
        ensures
            n == self.remaining().len(),
    {
        if self.taken <= self.pages.len() {
            self.pages.len() - self.taken
        } else {
            0
        }
    }
}

/// A walk over the pages of an item, as far as it has come. A new walk is
/// started for every use: `NavItem::into_iter` gives one.
pub enum NavItemIter<'a> {
    Page(PageCursor<'a>),
    Folder(PageCursor<'a>),
    Category(PageCursor<'a>),
}

impl<'a> NavItemIter<'a> {
    /// The pages that are still to come.
    pub open spec fn remaining(&self) -> Seq<NavPageView> {
        match self {
            NavItemIter::Page(cursor) => cursor.remaining(),
            NavItemIter::Folder(cursor) => cursor.remaining(),
            NavItemIter::Category(cursor) => cursor.remaining(),
        }
    }

    /// The next page of the walk, where there is one.
    pub fn next(&mut self) -> (r: Option<&'a NavPage>)
        ensures
            match r {
                Some(page) => old(self).remaining().len() > 0 && page@ == old(self).remaining()[0]
                    && final(self).remaining() == old(self).remaining().drop_first(),
                None => old(self).remaining().len() == 0 && final(self).remaining().len() == 0,
            },
    {
        match self {
            NavItemIter::Page(cursor) => cursor.next(),
            NavItemIter::Folder(cursor) => cursor.next(),
            NavItemIter::Category(cursor) => cursor.next(),
        }
    }

    /// The number of pages that are still to come, as the least and as the
    /// most.
    pub fn size_hint(&self) -> (r: (usize, Option<usize>))
        ensures
            r.0 == self.remaining().len(),
            r.1 == Some(r.0),
    {
        let n = match self {
            NavItemIter::Page(cursor) => cursor.len(),
            NavItemIter::Folder(cursor) => cursor.len(),
            NavItemIter::Category(cursor) => cursor.len(),
        };
        (n, Some(n))
    }
}

impl NavItem {
    /// A walk over the pages of the item.
    pub fn into_iter(&self) -> (walk: NavItemIter<'_>)
        ensures
            walk.remaining() == item_pages(self@),
            self is Page <==> walk is Page,
            self is Folder <==> walk is Folder,
            self is Category <==> walk is Category,
    {
        let cursor = PageCursor::new(self.pages());
        match self {
            NavItem::Page(_) => NavItemIter::Page(cursor),
            NavItem::Folder(_) => NavItemIter::Folder(cursor),
            NavItem::Category(_) => NavItemIter::Category(cursor),
        }
    }
}

} // verus!
