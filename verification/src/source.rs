//! The source tree as it was found on disk: every directory with its
//! entries in the order in which it was listed, and every file with its
//! text where it could be read as text.

use vstd::prelude::*;
use crate::path::{same_path, Path};

verus! {

/// A file or a directory of the source tree, under the path by which it was
/// reached. A file that could not be read as text has no content.
#[derive(Debug, PartialEq)]
pub enum SourceEntry {
    File { path: Path, content: Option<String> },
    Dir { path: Path, entries: Vec<SourceEntry> },
}

/// What a `SourceEntry` stands for.
pub ghost enum SourceView {
    File { path: Seq<char>, content: Option<Seq<char>> },
    Dir { path: Seq<char>, entries: Seq<SourceView> },
}

impl SourceEntry {
    /// The entry with every string replaced by its characters.
    pub open spec fn model(self) -> SourceView
        decreases self,
    {
        match self {
            SourceEntry::File { path, content } => SourceView::File {
                path: path@,
                content: match content {
                    Some(text) => Some(text@),
                    None => None,
                },
            },
            SourceEntry::Dir { path, entries } => SourceView::Dir {
                path: path@,
                entries: Seq::new(
                    entries.len() as nat,
                    |i: int|
                        if 0 <= i < entries.len() {
                            entries[i].model()
                        } else {
                            SourceView::File { path: path@, content: None }
                        },
                ),
            },
        }
    }
}

impl View for SourceEntry {
    type V = SourceView;

    open spec fn view(&self) -> SourceView {
        self.model()
    }
}

/// The models of a run of entries.
pub open spec fn source_models(entries: Seq<SourceEntry>) -> Seq<SourceView> {
    Seq::new(entries.len(), |i: int| entries[i]@)
}

/// The entries of a directory of the tree are the models of its entries.
pub proof fn lemma_dir_entries(path: Path, entries: Vec<SourceEntry>)
    ensures
        (SourceEntry::Dir { path, entries })@ == (SourceView::Dir {
            path: path@,
            entries: source_models(entries@),
        }),
{
    assert((SourceEntry::Dir { path, entries })@->Dir_entries =~= source_models(entries@));
}

/// What the first file under `path` holds, looking through `entry` and
/// everything below it: nothing where no file has that path.
pub open spec fn file_in(entry: SourceView, path: Seq<char>) -> Option<Option<Seq<char>>>
    decreases entry, 0nat,
{
    match entry {
        SourceView::File { path: p, content } => if same_path(p, path) {
            Some(content)
        } else {
            None
        },
        SourceView::Dir { entries, .. } => file_among(entries, path),
    }
}

/// What the first file under `path` holds, looking through `entries` in
/// order and through everything below each.
pub open spec fn file_among(entries: Seq<SourceView>, path: Seq<char>) -> Option<
    Option<Seq<char>>,
>
    decreases entries, 1nat,
{
    if entries.len() == 0 {
        None
    } else {
        match file_among(entries.drop_last(), path) {
            Some(found) => Some(found),
            None => file_in(entries.last(), path),
        }
    }
}

/// The text of the file under `path`: nothing where there is no such file
/// or it could not be read.
pub open spec fn text_of(entries: Seq<SourceView>, path: Seq<char>) -> Option<Seq<char>> {
    match file_among(entries, path) {
        Some(Some(text)) => Some(text),
        _ => None,
    }
}

/// The entries of the first directory under `path`, looking at `entry` and
/// through everything below it.
pub open spec fn dir_in(entry: SourceView, path: Seq<char>) -> Option<Seq<SourceView>>
    decreases entry, 0nat,
{
    match entry {
        SourceView::File { .. } => None,
        SourceView::Dir { path: p, entries } => if same_path(p, path) {
            Some(entries)
        } else {
            dir_among(entries, path)
        },
    }
}

/// The entries of the first directory under `path`, looking through
/// `entries` in order and through everything below each.
pub open spec fn dir_among(entries: Seq<SourceView>, path: Seq<char>) -> Option<Seq<SourceView>>
    decreases entries, 1nat,
{
    if entries.len() == 0 {
        None
    } else {
        match dir_among(entries.drop_last(), path) {
            Some(found) => Some(found),
            None => dir_in(entries.last(), path),
        }
    }
}

/// Where a front part of the entries holds the file, the entries hold it.
pub proof fn lemma_file_among_found(entries: Seq<SourceView>, path: Seq<char>, n: int)
    requires
        0 <= n <= entries.len(),
        file_among(entries.take(n), path) is Some,
    ensures
        file_among(entries, path) == file_among(entries.take(n), path),
    decreases entries.len(),
{
    if n == entries.len() {
        assert(entries.take(n) =~= entries);
    } else {
        assert(entries.drop_last().take(n) =~= entries.take(n));
        lemma_file_among_found(entries.drop_last(), path, n);
    }
}

/// Where a front part of the entries holds the directory, the entries hold
/// it.
pub proof fn lemma_dir_among_found(entries: Seq<SourceView>, path: Seq<char>, n: int)
    requires
        0 <= n <= entries.len(),
        dir_among(entries.take(n), path) is Some,
    ensures
        dir_among(entries, path) == dir_among(entries.take(n), path),
    decreases entries.len(),
{
    if n == entries.len() {
        assert(entries.take(n) =~= entries);
    } else {
        assert(entries.drop_last().take(n) =~= entries.take(n));
        lemma_dir_among_found(entries.drop_last(), path, n);
    }
}

/// A source tree: the entries at its top, which are as a rule the one
/// directory that holds the sources.
#[derive(Debug, PartialEq)]
pub struct SourceTree {
    pub entries: Vec<SourceEntry>,
}

impl View for SourceTree {
    type V = Seq<SourceView>;

    open spec fn view(&self) -> Seq<SourceView> {
        source_models(self.entries@)
    }
}

/// What the first file under `path` among `entries` holds.
fn find_file<'a>(entries: &'a Vec<SourceEntry>, path: &Path) -> (r: Option<&'a Option<String>>)
    ensures
        match r {
            Some(Some(text)) => file_among(source_models(entries@), path@) == Some(Some(text@)),
            Some(None) => file_among(source_models(entries@), path@) == Some(
                None::<Seq<char>>,
            ),
            None => file_among(source_models(entries@), path@) is None,
        },
    decreases entries,
{
    let ghost all = source_models(entries@);
    let mut i: usize = 0;
    proof {
        assert(all.take(0) =~= Seq::<SourceView>::empty());
    }
    while i < entries.len()
        invariant
            i <= entries.len(),
            all == source_models(entries@),
            file_among(all.take(i as int), path@) is None,
        decreases entries.len() - i,
    {
        proof {
            assert(all.take(i + 1).drop_last() =~= all.take(i as int));
            assert(all.take(i + 1).last() == entries[i as int]@);
            assert(file_among(all.take(i + 1), path@) == file_in(entries[i as int]@, path@));
            if file_among(all.take(i + 1), path@) is Some {
                lemma_file_among_found(all, path@, i + 1);
            }
        }
        match &entries[i] {
            SourceEntry::File { path: p, content } => {
                if p.same_as(path) {
                    return Some(content);
                }
            },
            SourceEntry::Dir { path: p, entries: below } => {
                proof {
                    lemma_dir_entries(*p, *below);
                }
                match find_file(below, path) {
                    Some(found) => {
                        return Some(found);
                    },
                    None => {},
                }
            },
        }
        i += 1;
    }
    proof {
        assert(all.take(i as int) =~= all);
    }
    None
}

/// The entries of the first directory under `path` among `entries`.
fn find_dir<'a>(entries: &'a Vec<SourceEntry>, path: &Path) -> (r: Option<&'a Vec<SourceEntry>>)
    ensures
        match r {
            Some(found) => dir_among(source_models(entries@), path@) == Some(
                source_models(found@),
            ),
            None => dir_among(source_models(entries@), path@) is None,
        },
    decreases entries,
{
    let ghost all = source_models(entries@);
    let mut i: usize = 0;
    proof {
        assert(all.take(0) =~= Seq::<SourceView>::empty());
    }
    while i < entries.len()
        invariant
            i <= entries.len(),
            all == source_models(entries@),
            dir_among(all.take(i as int), path@) is None,
        decreases entries.len() - i,
    {
        proof {
            assert(all.take(i + 1).drop_last() =~= all.take(i as int));
            assert(all.take(i + 1).last() == entries[i as int]@);
            assert(dir_among(all.take(i + 1), path@) == dir_in(entries[i as int]@, path@));
            if dir_among(all.take(i + 1), path@) is Some {
                lemma_dir_among_found(all, path@, i + 1);
            }
        }
        match &entries[i] {
            SourceEntry::File { .. } => {},
            SourceEntry::Dir { path: p, entries: below } => {
                proof {
                    lemma_dir_entries(*p, *below);
                }
                if p.same_as(path) {
                    return Some(below);
                }
                match find_dir(below, path) {
                    Some(found) => {
                        return Some(found);
                    },
                    None => {},
                }
            },
        }
        i += 1;
    }
    proof {
        assert(all.take(i as int) =~= all);
    }
    None
}

impl SourceTree {
    /// The text of the file under `path`.
    pub fn read_to_string(&self, path: &Path) -> (r: Option<&String>)
        ensures
            match r {
                Some(text) => text_of(self@, path@) == Some(text@),
                None => text_of(self@, path@) is None,
            },
    {
        match find_file(&self.entries, path) {
            Some(Some(text)) => Some(text),
            _ => None,
        }
    }

    /// The entries of the directory under `path`, in the order in which it
    /// was listed.
    pub fn read_dir(&self, path: &Path) -> (r: Option<&Vec<SourceEntry>>)
        ensures
            match r {
                Some(entries) => dir_among(self@, path@) == Some(source_models(entries@)),
                None => dir_among(self@, path@) is None,
            },
    {
        find_dir(&self.entries, path)
    }
}

} // verus!
