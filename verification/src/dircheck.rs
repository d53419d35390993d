//! The cross-check of a resolved tree against the files of the source tree:
//! which documents no page uses, and which files are no documents.

use vstd::prelude::*;
use crate::nav::{folder_pages, page_paths, page_ref_models, NavFolder, NavFolderView, NavPage};
use crate::path::{extension_spec, path_texts, same_path, uses_spec, Path};
use crate::process::{doc_extension, is_document, ErrorKind, Failure, ProcessError};
use crate::source::{
    dir_among, lemma_dir_entries, source_models, SourceEntry, SourceTree, SourceView,
};

verus! {

/// What the cross-check found: the documents that no page uses, and the
/// files that are no documents, each in the order of the walk.
#[derive(Debug, PartialEq)]
pub struct DirCheck {
    pub unused: Vec<Path>,
    pub extra: Vec<Path>,
}

/// What a `DirCheck` stands for.
pub ghost struct DirCheckView {
    pub unused: Seq<Seq<char>>,
    pub extra: Seq<Seq<char>>,
}

impl View for DirCheck {
    type V = DirCheckView;

    open spec fn view(&self) -> DirCheckView {
        DirCheckView { unused: path_texts(self.unused@), extra: path_texts(self.extra@) }
    }
}

/// The paths of the files in and below an entry, in the order of the walk.
pub open spec fn files_in(entry: SourceView) -> Seq<Seq<char>>
    decreases entry, 0nat,
{
    match entry {
        SourceView::File { path, .. } => seq![path],
        SourceView::Dir { entries, .. } => files_among(entries),
    }
}

/// The paths of the files in and below a run of entries: those of the
/// first, then those of the second, and so on.
pub open spec fn files_among(entries: Seq<SourceView>) -> Seq<Seq<char>>
    decreases entries, 1nat,
{
    if entries.len() == 0 {
        Seq::empty()
    } else {
        files_among(entries.drop_last()) + files_in(entries.last())
    }
}

/// The findings on a run of files, against the paths that pages use: a
/// file that is no document is extra; a document that no page uses is
/// unused.
pub open spec fn check_spec(files: Seq<Seq<char>>, used: Seq<Seq<char>>) -> DirCheckView
    decreases files.len(),
{
    if files.len() == 0 {
        DirCheckView { unused: Seq::empty(), extra: Seq::empty() }
    } else {
        let front = check_spec(files.drop_last(), used);
        let file = files.last();
        if extension_spec(file) != Some(doc_extension()) {
            DirCheckView { extra: front.extra.push(file), ..front }
        } else if !uses_spec(used, file) {
            DirCheckView { unused: front.unused.push(file), ..front }
        } else {
            front
        }
    }
}

/// The findings on the files below `dir`, against the pages of `root`.
pub open spec fn dir_check_spec(fs: Seq<SourceView>, dir: Seq<char>, root: NavFolderView) -> Result<
    DirCheckView,
    Failure,
> {
    match dir_among(fs, dir) {
        None => Err(Failure { kind: ErrorKind::UnreadableDir, path: dir }),
        Some(entries) => Ok(check_spec(files_among(entries), page_paths(folder_pages(root)))),
    }
}

/// Every file of the walk is judged once: it is extra exactly when it is no
/// document, and unused exactly when it is a document that no page uses.
pub proof fn lemma_check_spec(files: Seq<Seq<char>>, used: Seq<Seq<char>>, file: Seq<char>)
    ensures
        check_spec(files, used).extra.contains(file) <==> files.contains(file) && extension_spec(
            file,
        ) != Some(doc_extension()),
        check_spec(files, used).unused.contains(file) <==> files.contains(file) && extension_spec(
            file,
        ) == Some(doc_extension()) && !uses_spec(used, file),
        check_spec(files, used).extra.len() + check_spec(files, used).unused.len() <= files.len(),
    decreases files.len(),
{
    if files.len() > 0 {
        let front = check_spec(files.drop_last(), used);
        let last = files.last();
        lemma_check_spec(files.drop_last(), used, file);
        let found = check_spec(files, used);
        assert(files.contains(file) <==> files.drop_last().contains(file) || last == file) by {
            if files.contains(file) {
                let i = choose|i: int| 0 <= i < files.len() && files[i] == file;
                if i < files.len() - 1 {
                    assert(files.drop_last()[i] == file);
                }
            }
            if files.drop_last().contains(file) {
                let i = choose|i: int|
                    0 <= i < files.drop_last().len() && files.drop_last()[i] == file;
                assert(files[i] == file);
            }
            if last == file {
                assert(files[files.len() - 1] == file);
            }
        }
        lemma_push_contains(front.extra, last, file);
        lemma_push_contains(front.unused, last, file);
    }
}

/// What a run holds after one more was put behind it.
proof fn lemma_push_contains(s: Seq<Seq<char>>, last: Seq<char>, x: Seq<char>)
    ensures
        s.push(last).contains(x) <==> s.contains(x) || last == x,
{
    let t = s.push(last);
    if t.contains(x) {
        let i = choose|i: int| 0 <= i < t.len() && t[i] == x;
        if i < s.len() {
            assert(s[i] == x);
        }
    }
    if s.contains(x) {
        let i = choose|i: int| 0 <= i < s.len() && s[i] == x;
        assert(t[i] == x);
    }
    if last == x {
        assert(t[s.len() as int] == x);
    }
}

/// The word for a kind of file, four characters wide, as it is shown in
/// front of a path.
pub open spec fn file_type_spec(is_file: bool, is_dir: bool, is_symlink: bool) -> Seq<char> {
    if is_file {
        "file"@
    } else if is_dir {
        "dir "@
    } else if is_symlink {
        "sym "@
    } else {
        "??? "@
    }
}

/// The word for a kind of file.
pub fn file_type_str(is_file: bool, is_dir: bool, is_symlink: bool) -> (r: &'static str)
    ensures
        r@ == file_type_spec(is_file, is_dir, is_symlink),
{
    if is_file {
        "file"
    } else if is_dir {
        "dir "
    } else if is_symlink {
        "sym "
    } else {
        "??? "
    }
}

/// Adds the paths of the files in and below `entries` to `out`, in the
/// order of the walk: a directory is walked where it stands among the
/// entries.
pub fn walk_dir_recursive(entries: &Vec<SourceEntry>, out: &mut Vec<Path>)
    ensures
        path_texts(final(out)@) == path_texts(old(out)@) + files_among(source_models(entries@)),
    decreases entries,
{
    let ghost before = path_texts(out@);
    let ghost all = source_models(entries@);
    let mut i: usize = 0;
    proof {
        assert(all.take(0) =~= Seq::<SourceView>::empty());
        assert(before + files_among(all.take(0)) =~= before);
    }
    while i < entries.len()
        invariant
            i <= entries.len(),
            all == source_models(entries@),
            path_texts(out@) == before + files_among(all.take(i as int)),
        decreases entries.len() - i,
    {
        let ghost so_far = path_texts(out@);
        proof {
            assert(all.take(i + 1).drop_last() =~= all.take(i as int));
            assert(all.take(i + 1).last() == entries[i as int]@);
            assert(files_among(all.take(i + 1)) == files_among(all.take(i as int)) + files_in(
                entries[i as int]@,
            ));
        }
        match &entries[i] {
            SourceEntry::Dir { path, entries: below } => {
                proof {
                    lemma_dir_entries(*path, *below);
                    assert(files_in(entries[i as int]@) == files_among(source_models(below@)));
                }
                walk_dir_recursive(below, out);
            },
            SourceEntry::File { path, .. } => {
                out.push(path.clone());
                proof {
                    assert(path_texts(out@) =~= so_far + seq![path@]);
                }
            },
        }
        proof {
            assert(path_texts(out@) =~= before + files_among(all.take(i + 1)));
        }
        i += 1;
    }
    proof {
        assert(all.take(i as int) =~= all);
    }
}

/// Whether one of `pages` lies under `path`.
fn uses(pages: &Vec<&NavPage>, path: &Path) -> (r: bool)
    ensures
        r == uses_spec(page_paths(page_ref_models(pages@)), path@),
{
    let ghost used = page_paths(page_ref_models(pages@));
    let mut i: usize = 0;
    while i < pages.len()
        invariant
            i <= pages.len(),
            used == page_paths(page_ref_models(pages@)),
            forall|j: int| 0 <= j < i ==> !same_path(used[j], path@),
        decreases pages.len() - i,
    {
        if pages[i].path.same_as(path) {
            proof {
                assert(same_path(used[i as int], path@));
            }
            return true;
        }
        i += 1;
    }
    false
}

/// The result of a cross-check, with its parts replaced by their models.
pub open spec fn check_read(r: Result<DirCheck, ProcessError>) -> Result<DirCheckView, Failure> {
    match r {
        Ok(found) => Ok(found@),
        Err(e) => Err(e@),
    }
}

/// Walks the files below `dir` and finds the documents that no page of
/// `root` uses, and the files that are no documents.
pub fn dir_check(fs: &SourceTree, dir: &Path, root: &NavFolder) -> (r: Result<
    DirCheck,
    ProcessError,
>)
    ensures
        check_read(r) == dir_check_spec(fs@, dir@, root@),
{
    let entries = match fs.read_dir(dir) {
        Some(entries) => entries,
        None => {
            return Err(ProcessError { kind: ErrorKind::UnreadableDir, path: dir.clone() });
        },
    };
    let pages = root.pages();
    let mut files: Vec<Path> = Vec::new();
    proof {
        assert(path_texts(files@) =~= Seq::<Seq<char>>::empty());
    }
    walk_dir_recursive(entries, &mut files);
    let ghost all = path_texts(files@);
    let ghost used = page_paths(page_ref_models(pages@));
    proof {
        assert(all =~= files_among(source_models(entries@)));
        assert(all.take(0) =~= Seq::<Seq<char>>::empty());
    }
    let mut unused: Vec<Path> = Vec::new();
    let mut extra: Vec<Path> = Vec::new();
    let mut i: usize = 0;
    proof {
        assert(path_texts(unused@) =~= Seq::<Seq<char>>::empty());
        assert(path_texts(extra@) =~= Seq::<Seq<char>>::empty());
    }
    while i < files.len()
        invariant
            i <= files.len(),
            all == path_texts(files@),
            used == page_paths(page_ref_models(pages@)),
            check_spec(all.take(i as int), used) == (DirCheckView {
                unused: path_texts(unused@),
                extra: path_texts(extra@),
            }),
        decreases files.len() - i,
    {
        let ghost unused_before = path_texts(unused@);
        let ghost extra_before = path_texts(extra@);
        proof {
            assert(all.take(i + 1).drop_last() =~= all.take(i as int));
            assert(all.take(i + 1).last() == files[i as int]@);
        }
        let file = &files[i];
        if !is_document(file) {
            // a file that is no document is extra
            extra.push(file.clone());
            proof {
                assert(path_texts(extra@) =~= extra_before.push(file@));
            }
        } else if !uses(&pages, file) {
            // a document that no page uses is unused
            unused.push(file.clone());
            proof {
                assert(path_texts(unused@) =~= unused_before.push(file@));
            }
        }
        i += 1;
    }
    proof {
        assert(all.take(i as int) =~= all);
    }
    Ok(DirCheck { unused, extra })
}

} // verus!
