//! Source paths: `/`-separated text. A path is kept as it is written; two
//! paths are the same where they lead to the same place.

use vstd::prelude::*;
use crate::text::{
    ends_with, find, lemma_find, occurs_at, rsplit_once, same_text, split_at_first, starts_with,
};

verus! {

/// The separator between the components of a path.
pub open spec fn separator() -> Seq<char> {
    seq!['/']
}

/// The position of the last `c` in `s`, or -1 where `s` holds none.
pub open spec fn last_index_of(s: Seq<char>, c: char) -> int
    decreases s.len(),
{
    if s.len() == 0 {
        -1
    } else if s.last() == c {
        s.len() - 1
    } else {
        last_index_of(s.drop_last(), c)
    }
}

/// What `base` becomes when `rel` is pushed onto it: `rel` alone where it
/// starts at the root, else `base`, a separator unless `base` is empty or
/// already ends in one, and `rel`.
pub open spec fn join_spec(base: Seq<char>, rel: Seq<char>) -> Seq<char> {
    if rel.len() > 0 && rel[0] == '/' {
        rel
    } else if base.len() == 0 || base.last() == '/' {
        base + rel
    } else {
        base + separator() + rel
    }
}

/// The text behind the last separator: the whole text where it holds none.
pub open spec fn tail_spec(path: Seq<char>) -> Seq<char> {
    path.subrange(last_index_of(path, '/') + 1, path.len() as int)
}

/// The last component of a path, unless it is empty, `.` or `..`.
pub open spec fn file_name_spec(path: Seq<char>) -> Option<Seq<char>> {
    let tail = tail_spec(path);
    if tail.len() == 0 || tail == seq!['.'] || tail == seq!['.', '.'] {
        None
    } else {
        Some(tail)
    }
}

/// The text behind the last dot of the file name, where the name has a dot
/// that is not its first character.
pub open spec fn extension_spec(path: Seq<char>) -> Option<Seq<char>> {
    match file_name_spec(path) {
        None => None,
        Some(name) => {
            let dot = last_index_of(name, '.');
            if dot <= 0 {
                None
            } else {
                Some(name.subrange(dot + 1, name.len() as int))
            }
        },
    }
}

/// The path without its last component: nothing for the empty path and for
/// the root, the root for a component directly below it, the empty path for
/// a single relative component.
pub open spec fn parent_spec(path: Seq<char>) -> Option<Seq<char>> {
    let slash = last_index_of(path, '/');
    if slash < 0 {
        if path.len() == 0 {
            None
        } else {
            Some(Seq::<char>::empty())
        }
    } else if slash == 0 {
        if path.len() == 1 {
            None
        } else {
            Some(separator())
        }
    } else {
        Some(path.subrange(0, slash))
    }
}

/// Whether a part between two separators counts as a component: an empty
/// part never does, and `.` only where the path starts with it.
pub open spec fn counts(part: Seq<char>, first: bool) -> bool {
    part.len() > 0 && (first || part != seq!['.'])
}

/// The components of what is left of a path; `first` says whether it is
/// still the whole path.
pub open spec fn components_from(rest: Seq<char>, first: bool) -> Seq<Seq<char>>
    decreases rest.len(),
{
    let at = find(rest, separator());
    if at < 0 || at >= rest.len() {
        if counts(rest, first) {
            seq![rest]
        } else {
            Seq::empty()
        }
    } else if counts(rest.take(at), first) {
        seq![rest.take(at)] + components_from(rest.skip(at + 1), false)
    } else {
        components_from(rest.skip(at + 1), false)
    }
}

/// The components of a path: the parts between its separators, without the
/// empty ones and without `.`, except for a `.` that the path starts with.
pub open spec fn components_spec(path: Seq<char>) -> Seq<Seq<char>> {
    components_from(path, true)
}

/// Whether a path starts at the root.
pub open spec fn rooted(path: Seq<char>) -> bool {
    path.len() > 0 && path[0] == '/'
}

/// The component that stands for the directory itself.
pub open spec fn dot() -> Seq<char> {
    seq!['.']
}

/// The component that stands for the directory above.
pub open spec fn dot_dot() -> Seq<char> {
    seq!['.', '.']
}

/// The components that are left when every `..` is taken together with the
/// component in front of it: a `..` behind a named component takes that
/// component away with itself, a `..` at the root goes away alone, and a
/// `..` with nothing named in front of it stays.
pub open spec fn resolve_spec(parts: Seq<Seq<char>>, rooted: bool) -> Seq<Seq<char>>
    decreases parts.len(),
{
    if parts.len() == 0 {
        Seq::empty()
    } else {
        let front = resolve_spec(parts.drop_last(), rooted);
        let part = parts.last();
        if part != dot_dot() {
            front.push(part)
        } else if front.len() == 0 {
            if rooted {
                front
            } else {
                front.push(part)
            }
        } else if front.last() == dot_dot() || front.last() == dot() {
            front.push(part)
        } else {
            front.drop_last()
        }
    }
}

/// The place that a path leads to: its components, with every `..`
/// resolved.
pub open spec fn place_spec(path: Seq<char>) -> Seq<Seq<char>> {
    resolve_spec(components_spec(path), rooted(path))
}

/// Whether two paths are the same: both start at the root or neither does,
/// and they lead to the same place. Doubled separators, a separator at the
/// end, `.` inside a path and a component that a `..` takes back make no
/// difference.
pub open spec fn same_path(a: Seq<char>, b: Seq<char>) -> bool {
    rooted(a) == rooted(b) && place_spec(a) == place_spec(b)
}

/// Whether `file` is the same path as one of `used`.
pub open spec fn uses_spec(used: Seq<Seq<char>>, file: Seq<char>) -> bool {
    exists|i: int| 0 <= i < used.len() && same_path(#[trigger] used[i], file)
}

/// The texts of a run of paths.
pub open spec fn path_texts(paths: Seq<Path>) -> Seq<Seq<char>> {
    Seq::new(paths.len(), |i: int| paths[i]@)
}

/// The texts of a run of strings.
pub open spec fn texts(parts: Seq<&str>) -> Seq<Seq<char>> {
    Seq::new(parts.len(), |i: int| parts[i]@)
}

/// `last_index_of` finds the one `c` that nothing follows.
pub proof fn lemma_last_index_of_split(before: Seq<char>, c: char, after: Seq<char>)
    requires
        !after.contains(c),
    ensures
        last_index_of(before + seq![c] + after, c) == before.len(),
    decreases after.len(),
{
    let s = before + seq![c] + after;
    if after.len() == 0 {
        assert(s.last() == c);
    } else {
        assert(after.contains(after.last()));
        assert(s.last() == after.last());
        assert(s.drop_last() =~= before + seq![c] + after.drop_last());
        assert forall|x: char| after.drop_last().contains(x) implies after.contains(x) by {
            let i = choose|i: int| 0 <= i < after.drop_last().len() && after.drop_last()[i] == x;
            assert(after[i] == x);
        }
        lemma_last_index_of_split(before, c, after.drop_last());
    }
}

/// `last_index_of` is -1 exactly on text without `c`; otherwise it is the
/// position of a `c`.
pub proof fn lemma_last_index_of_range(s: Seq<char>, c: char)
    ensures
        -1 <= last_index_of(s, c) < s.len(),
        last_index_of(s, c) >= 0 ==> s[last_index_of(s, c)] == c,
        last_index_of(s, c) == -1 <==> !s.contains(c),
        forall|i: int| last_index_of(s, c) < i < s.len() ==> s[i] != c,
    decreases s.len(),
{
    if s.len() == 0 {
    } else if s.last() == c {
        assert(s.contains(c));
    } else {
        lemma_last_index_of_range(s.drop_last(), c);
        if s.drop_last().contains(c) {
            let i = choose|i: int| 0 <= i < s.drop_last().len() && s.drop_last()[i] == c;
            assert(s[i] == c);
        }
        if s.contains(c) {
            let i = choose|i: int| 0 <= i < s.len() && s[i] == c;
            assert(s.drop_last()[i] == c);
        }
        assert forall|i: int| last_index_of(s, c) < i < s.len() implies s[i] != c by {
            if i < s.len() - 1 {
                assert(s.drop_last()[i] == s[i]);
            }
        }
    }
}

/// Being the same path is an equivalence: every path is the same as itself,
/// and two paths that are the same as a third are the same.
pub proof fn lemma_same_path_equivalence(a: Seq<char>, b: Seq<char>, c: Seq<char>)
    ensures
        same_path(a, a),
        same_path(a, b) ==> same_path(b, a),
        same_path(a, b) && same_path(b, c) ==> same_path(a, c),
{
}

/// A name that was pushed onto a directory is the last component of the
/// path, and the directory is what is left without it.
pub proof fn lemma_parent_of_join(dir: Seq<char>, name: Seq<char>)
    requires
        dir.len() > 0,
        dir.last() != '/',
        name.len() > 0,
        !name.contains('/'),
    ensures
        parent_spec(join_spec(dir, name)) == Some(dir),
        tail_spec(join_spec(dir, name)) == name,
{
    let joined = join_spec(dir, name);
    assert(name[0] != '/') by {
        assert(name.contains(name[0]));
    }
    lemma_last_index_of_split(dir, '/', name);
    assert(joined.subrange(0, dir.len() as int) =~= dir);
    assert(joined.subrange(dir.len() as int + 1, joined.len() as int) =~= name);
}

/// A path of the source tree.
#[derive(Debug)]
pub struct Path {
    inner: String,
}

impl PartialEq for Path {
    fn eq(&self, other: &Path) -> (r: bool) {
        self.same_as(other)
    }
}

impl Eq for Path {

}

impl vstd::std_specs::cmp::PartialEqSpecImpl for Path {
    open spec fn obeys_eq_spec() -> bool {
        true
    }

    open spec fn eq_spec(&self, other: &Path) -> bool {
        same_path(self@, other@)
    }
}

impl View for Path {
    type V = Seq<char>;

    closed spec fn view(&self) -> Seq<char> {
        self.inner@
    }
}

impl Clone for Path {
    fn clone(&self) -> (r: Self)
        ensures
            r@ == self@,
    {
        Path { inner: self.inner.clone() }
    }
}

impl Path {
    /// The path that `path` spells.
    pub fn new(path: &str) -> (p: Path)
        ensures
            p@ == path@,
    {
        Path::new_owned(path.to_owned())
    }

    /// The path that `buf` spells, without copying it.
    pub fn new_owned(buf: String) -> (p: Path)
        ensures
            p@ == buf@,
    {
        Path { inner: buf }
    }

    /// The text of the path.
    pub fn as_str(&self) -> (s: &str)
        ensures
            s@ == self@,
    {
        self.inner.as_str()
    }

    /// Whether the path starts at the root.
    pub fn is_rooted(&self) -> (r: bool)
        ensures
            r == rooted(self@),
    {
        proof {
            reveal_strlit("/");
            if self@.len() > 0 && self@[0] == '/' {
                assert(self@.subrange(0, 1) =~= "/"@);
            }
            if "/"@.is_prefix_of(self@) {
                assert(self@.subrange(0, 1)[0] == '/');
            }
        }
        starts_with(self.inner.as_str(), "/")
    }

    /// The components of the path.
    pub fn components(&self) -> (parts: Vec<&str>)
        ensures
            texts(parts@) == components_spec(self@),
    {
        let mut parts: Vec<&str> = Vec::new();
        let mut rest = self.inner.as_str();
        let mut first = true;
        let mut done = false;
        proof {
            reveal_strlit("/");
            reveal_strlit(".");
            assert("/"@ =~= separator());
            assert("."@ =~= seq!['.']);
            assert(texts(parts@) + components_from(rest@, first) =~= components_spec(self@));
        }
        while !done
            invariant
                "/"@ == separator(),
                "."@ == seq!['.'],
                !done ==> components_spec(self@) == texts(parts@) + components_from(rest@, first),
                done ==> components_spec(self@) == texts(parts@),
            decreases rest@.len() + (if done { 0int } else { 1int }),
        {
            let ghost before = texts(parts@);
            proof {
                lemma_find(rest@, separator());
            }
            match split_at_first(rest, "/") {
                Some((part, after)) => {
                    if !part.is_empty() && (first || !same_text(part, ".")) {
                        parts.push(part);
                        proof {
                            assert(texts(parts@) =~= before + seq![part@]);
                            assert(texts(parts@) + components_from(after@, false) =~= before
                                + components_from(rest@, first));
                        }
                    }
                    rest = after;
                    first = false;
                },
                None => {
                    if !rest.is_empty() && (first || !same_text(rest, ".")) {
                        parts.push(rest);
                        proof {
                            assert(texts(parts@) =~= before + seq![rest@]);
                        }
                    } else {
                        proof {
                            assert(before + Seq::<Seq<char>>::empty() =~= before);
                        }
                    }
                    done = true;
                },
            }
        }
        parts
    }

    /// The components of the place that the path leads to.
    pub fn resolved(&self) -> (parts: Vec<&str>)
        ensures
            texts(parts@) == place_spec(self@),
    {
        let at_root = self.is_rooted();
        let all = self.components();
        let mut parts: Vec<&str> = Vec::new();
        let mut i: usize = 0;
        proof {
            reveal_strlit(".");
            reveal_strlit("..");
            assert("."@ =~= dot());
            assert(".."@ =~= dot_dot());
            assert(texts(all@).take(0) =~= Seq::<Seq<char>>::empty());
            assert(texts(parts@) =~= Seq::<Seq<char>>::empty());
        }
        while i < all.len()
            invariant
                i <= all.len(),
                "."@ == dot(),
                ".."@ == dot_dot(),
                at_root == rooted(self@),
                texts(all@) == components_spec(self@),
                texts(parts@) == resolve_spec(texts(all@).take(i as int), at_root),
            decreases all.len() - i,
        {
            let ghost before = texts(parts@);
            proof {
                assert(texts(all@).take(i + 1).drop_last() =~= texts(all@).take(i as int));
                assert(texts(all@).take(i + 1).last() == all[i as int]@);
            }
            let part = all[i];
            if !same_text(part, "..") {
                parts.push(part);
                proof {
                    assert(texts(parts@) =~= before.push(part@));
                }
            } else if parts.len() == 0 {
                if !at_root {
                    parts.push(part);
                    proof {
                        assert(texts(parts@) =~= before.push(part@));
                    }
                }
            } else {
                let last = parts[parts.len() - 1];
                proof {
                    assert(before.last() == last@);
                }
                if same_text(last, "..") || same_text(last, ".") {
                    parts.push(part);
                    proof {
                        assert(texts(parts@) =~= before.push(part@));
                    }
                } else {
                    parts.pop();
                    proof {
                        assert(texts(parts@) =~= before.drop_last());
                    }
                }
            }
            i += 1;
        }
        proof {
            assert(texts(all@).take(i as int) =~= texts(all@));
        }
        parts
    }

    /// Whether two paths are the same.
    pub fn same_as(&self, other: &Path) -> (r: bool)
        ensures
            r == same_path(self@, other@),
    {
        if self.is_rooted() != other.is_rooted() {
            return false;
        }
        let mine = self.resolved();
        let theirs = other.resolved();
        if mine.len() != theirs.len() {
            proof {
                assert(texts(mine@).len() != texts(theirs@).len());
            }
            return false;
        }
        let mut i: usize = 0;
        while i < mine.len()
            invariant
                i <= mine.len(),
                mine.len() == theirs.len(),
                rooted(self@) == rooted(other@),
                texts(mine@) == place_spec(self@),
                texts(theirs@) == place_spec(other@),
                forall|j: int| 0 <= j < i ==> texts(mine@)[j] == texts(theirs@)[j],
            decreases mine.len() - i,
        {
            if !same_text(mine[i], theirs[i]) {
                proof {
                    assert(texts(mine@)[i as int] != texts(theirs@)[i as int]);
                }
                return false;
            }
            i += 1;
        }
        proof {
            assert(texts(mine@) =~= texts(theirs@));
        }
        true
    }

    /// This path with `path` pushed onto it.
    pub fn join(&self, path: &str) -> (p: Path)
        ensures
            p@ == join_spec(self@, path@),
    {
        proof {
            reveal_strlit("/");
        }
        if starts_with(path, "/") {
            assert(path@.len() > 0 && path@[0] == '/') by {
                assert(path@.subrange(0, 1)[0] == '/');
            }
            Path::new(path)
        } else {
            assert(!(path@.len() > 0 && path@[0] == '/')) by {
                if path@.len() > 0 && path@[0] == '/' {
                    assert(path@.subrange(0, 1) =~= "/"@);
                }
            }
            let mut p = self.inner.clone();
            let bare = p.as_str().is_empty() || ends_with(p.as_str(), "/");
            assert(bare == (self@.len() == 0 || self@.last() == '/')) by {
                if self@.len() > 0 {
                    let n = self@.len() as int;
                    if self@.last() == '/' {
                        assert(self@.subrange(n - 1, n) =~= "/"@);
                    }
                    if "/"@.is_suffix_of(self@) {
                        assert(self@.subrange(n - 1, n)[0] == '/');
                    }
                }
            }
            if !bare {
                p.append("/");
                assert("/"@ =~= separator());
            }
            p.append(path);
            Path { inner: p }
        }
    }

    /// The text behind the last separator.
    fn tail(&self) -> (t: &str)
        ensures
            t@ == tail_spec(self@),
    {
        proof {
            reveal_strlit("/");
            lemma_last_index_of_range(self@, '/');
        }
        match rsplit_once(self.inner.as_str(), "/") {
            Some((before, after)) => {
                proof {
                    assert("/"@ =~= seq!['/']);
                    lemma_slash_free(self@, before@, after@);
                    lemma_last_index_of_split(before@, '/', after@);
                    assert(self@.subrange(before@.len() as int + 1, self@.len() as int) =~= after@);
                }
                after
            },
            None => {
                proof {
                    if self@.contains('/') {
                        let i = choose|i: int| 0 <= i < self@.len() && self@[i] == '/';
                        assert(self@.subrange(i, i + 1) =~= "/"@);
                        assert(occurs_at(self@, "/"@, i));
                    }
                    assert(self@.subrange(0, self@.len() as int) =~= self@);
                }
                self.inner.as_str()
            },
        }
    }

    /// The last component of the path.
    pub fn file_name(&self) -> (r: Option<&str>)
        ensures
            match r {
                Some(name) => file_name_spec(self@) == Some(name@),
                None => file_name_spec(self@) is None,
            },
    {
        let tail = self.tail();
        proof {
            reveal_strlit(".");
            reveal_strlit("..");
            assert("."@ =~= seq!['.']);
            assert(".."@ =~= seq!['.', '.']);
        }
        if tail.is_empty() || same_text(tail, ".") || same_text(tail, "..") {
            None
        } else {
            Some(tail)
        }
    }

    /// The extension of the file name, without its dot.
    pub fn extension(&self) -> (r: Option<&str>)
        ensures
            match r {
                Some(ext) => extension_spec(self@) == Some(ext@),
                None => extension_spec(self@) is None,
            },
    {
        proof {
            reveal_strlit(".");
        }
        match self.file_name() {
            None => None,
            Some(name) => {
                proof {
                    lemma_last_index_of_range(name@, '.');
                }
                match rsplit_once(name, ".") {
                    Some((stem, ext)) => {
                        proof {
                            assert("."@ =~= seq!['.']);
                            lemma_dot_free(name@, stem@, ext@);
                            lemma_last_index_of_split(stem@, '.', ext@);
                            assert(name@.subrange(stem@.len() as int + 1, name@.len() as int) =~= ext@);
                        }
                        if stem.is_empty() {
                            None
                        } else {
                            Some(ext)
                        }
                    },
                    None => {
                        proof {
                            if name@.contains('.') {
                                let i = choose|i: int| 0 <= i < name@.len() && name@[i] == '.';
                                assert(name@.subrange(i, i + 1) =~= "."@);
                                assert(occurs_at(name@, "."@, i));
                            }
                        }
                        None
                    },
                }
            },
        }
    }

    /// The path without its last component.
    pub fn parent(&self) -> (r: Option<Path>)
        ensures
            match r {
                Some(p) => parent_spec(self@) == Some(p@),
                None => parent_spec(self@) is None,
            },
    {
        proof {
            reveal_strlit("/");
            reveal_strlit("");
            lemma_last_index_of_range(self@, '/');
            assert(""@ =~= Seq::<char>::empty());
        }
        match rsplit_once(self.inner.as_str(), "/") {
            Some((before, after)) => {
                proof {
                    assert("/"@ =~= seq!['/']);
                    lemma_slash_free(self@, before@, after@);
                    lemma_last_index_of_split(before@, '/', after@);
                    assert(self@.subrange(0, before@.len() as int) =~= before@);
                }
                if before.is_empty() {
                    if after.is_empty() {
                        None
                    } else {
                        Some(Path::new("/"))
                    }
                } else {
                    Some(Path::new(before))
                }
            },
            None => {
                proof {
                    if self@.contains('/') {
                        let i = choose|i: int| 0 <= i < self@.len() && self@[i] == '/';
                        assert(self@.subrange(i, i + 1) =~= "/"@);
                        assert(occurs_at(self@, "/"@, i));
                    }
                }
                if self.inner.as_str().is_empty() {
                    None
                } else {
                    Some(Path::new(""))
                }
            },
        }
    }
}

/// Text that is split at its last `/` holds none behind the split.
proof fn lemma_slash_free(s: Seq<char>, before: Seq<char>, after: Seq<char>)
    requires
        s == before + seq!['/'] + after,
        forall|i: int| before.len() < i ==> !occurs_at(s, seq!['/'], i),
    ensures
        !after.contains('/'),
{
    if after.contains('/') {
        let j = choose|j: int| 0 <= j < after.len() && after[j] == '/';
        let i = before.len() + 1 + j;
        assert(s[i] == '/');
        assert(s.subrange(i, i + 1) =~= seq!['/']);
        assert(occurs_at(s, seq!['/'], i));
    }
}

/// Text that is split at its last `.` holds none behind the split.
proof fn lemma_dot_free(s: Seq<char>, before: Seq<char>, after: Seq<char>)
    requires
        s == before + seq!['.'] + after,
        forall|i: int| before.len() < i ==> !occurs_at(s, seq!['.'], i),
    ensures
        !after.contains('.'),
{
    if after.contains('.') {
        let j = choose|j: int| 0 <= j < after.len() && after[j] == '.';
        let i = before.len() + 1 + j;
        assert(s[i] == '.');
        assert(s.subrange(i, i + 1) =~= seq!['.']);
        assert(occurs_at(s, seq!['.'], i));
    }
}

} // verus!
