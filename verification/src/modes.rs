//! What the three modes of a run find in a resolved tree.

use vstd::prelude::*;
use crate::config::Config;
use crate::nav::{folder_pages, page_ref_models, NavFolder, NavPage, NavPageView};
use crate::path::Path;

verus! {

/// A page whose document is not in canonical form, with the text that it
/// should hold.
#[derive(Debug, PartialEq)]
pub struct Rewrite {
    pub path: Path,
    pub content: String,
}

/// What a `Rewrite` stands for.
pub ghost struct RewriteView {
    pub path: Seq<char>,
    pub content: Seq<char>,
}

impl View for Rewrite {
    type V = RewriteView;

    open spec fn view(&self) -> RewriteView {
        RewriteView { path: self.path@, content: self.content@ }
    }
}

/// The models of a run of rewrites.
pub open spec fn rewrite_models(rewrites: Seq<Rewrite>) -> Seq<RewriteView> {
    Seq::new(rewrites.len(), |i: int| rewrites[i]@)
}

/// The documents that are not in canonical form, among all that were
/// looked at.
#[derive(Debug, PartialEq)]
pub struct Stale {
    pub total: usize,
    pub rewrites: Vec<Rewrite>,
}

/// The rewrites that a run of pages needs, in the order of the pages: one
/// for each page whose document differs from its canonical form.
pub open spec fn rewrites_spec(pages: Seq<NavPageView>) -> Seq<RewriteView>
    decreases pages.len(),
{
    if pages.len() == 0 {
        Seq::empty()
    } else {
        let front = rewrites_spec(pages.drop_last());
        let page = pages.last();
        if page.fixed_content != page.raw_content {
            front.push(RewriteView { path: page.path, content: page.fixed_content })
        } else {
            front
        }
    }
}

/// There are no more rewrites than pages.
pub proof fn lemma_rewrites_len(pages: Seq<NavPageView>)
    ensures
        rewrites_spec(pages).len() <= pages.len(),
    decreases pages.len(),
{
    if pages.len() > 0 {
        lemma_rewrites_len(pages.drop_last());
    }
}

/// The rewrites that `pages` need.
fn stale_pages(pages: &Vec<&NavPage>) -> (rewrites: Vec<Rewrite>)
    ensures
        rewrite_models(rewrites@) == rewrites_spec(page_ref_models(pages@)),
{
    let ghost all = page_ref_models(pages@);
    let mut rewrites: Vec<Rewrite> = Vec::new();
    let mut i: usize = 0;
    proof {
        assert(all.take(0) =~= Seq::<NavPageView>::empty());
        assert(rewrite_models(rewrites@) =~= Seq::<RewriteView>::empty());
    }
    while i < pages.len()
        invariant
            i <= pages.len(),
            all == page_ref_models(pages@),
            rewrite_models(rewrites@) == rewrites_spec(all.take(i as int)),
        decreases pages.len() - i,
    {
        let ghost before = rewrite_models(rewrites@);
        proof {
            assert(all.take(i + 1).drop_last() =~= all.take(i as int));
            assert(all.take(i + 1).last() == pages[i as int]@);
        }
        let page = pages[i];
        if page.fixed_content != page.raw_content {
            rewrites.push(Rewrite { path: page.path.clone(), content: page.fixed_content.clone() });
            proof {
                assert(rewrite_models(rewrites@) =~= before.push(
                    RewriteView { path: page@.path, content: page@.fixed_content },
                ));
            }
        }
        i += 1;
    }
    proof {
        assert(all.take(i as int) =~= all);
    }
    rewrites
}

/// A file that could not be built.
#[derive(Debug, PartialEq)]
pub struct BuildError {
    pub path: Path,
}

/// The build of a site from the tree: nothing is built yet, and nothing
/// fails.
pub fn mode_build(root: NavFolder, config: &Config, extra: &[Path]) -> (r: Result<(), BuildError>)
    ensures
        r is Ok,
{
    Ok(())
}

/// Checks that every document of the tree is in canonical form: the number
/// of documents where all are, else those that are not.
pub fn mode_check(root: &NavFolder) -> (r: Result<usize, Stale>)
    ensures
        match r {
            Ok(total) => {
                &&& rewrites_spec(folder_pages(root@)).len() == 0
                &&& total == folder_pages(root@).len()
            },
            Err(stale) => {
                &&& stale.rewrites.len() > 0
                &&& rewrite_models(stale.rewrites@) == rewrites_spec(folder_pages(root@))
                &&& stale.total == folder_pages(root@).len()
            },
        },
{
    let pages = root.pages();
    let rewrites = stale_pages(&pages);
    let total = pages.len();
    if rewrites.len() == 0 {
        Ok(total)
    } else {
        Err(Stale { total, rewrites })
    }
}

/// What is to be written so that every document of the tree is in canonical
/// form, and the number of documents that were looked at.
pub fn mode_fix(root: &NavFolder) -> (r: Stale)
    ensures
        rewrite_models(r.rewrites@) == rewrites_spec(folder_pages(root@)),
        r.total == folder_pages(root@).len(),
{
    let pages = root.pages();
    let rewrites = stale_pages(&pages);
    Stale { total: pages.len(), rewrites }
}

} // verus!
