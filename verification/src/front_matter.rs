//! The navigation entries that a document declares in its front matter:
//! their five forms, and the reading and writing of each as a YAML value.

use vstd::prelude::*;
use crate::text::{ends_with, same_text, strip_prefix, strip_suffix};
use crate::yaml::{models, writable, YamlEntry, YamlValue, YamlView};

verus! {

/// Why a YAML value is no navigation entry.
#[derive(Debug, Clone, Copy, PartialEq, Eq, Structural)]
pub enum DecodeError {
    /// The path is `index.md` itself.
    SelfReference,
    /// A directory listing (`dir/*`) without a name.
    UnnamedListing,
    /// An unnamed path that is neither a document nor a folder.
    NotFileOrFolder,
    /// A named path that is neither a document, a folder nor a listing.
    NotFileFolderOrListing,
    /// A tag other than `index`.
    UnknownTag,
    /// A tag on something that is no string.
    TagPayload,
    /// A tagged path that is no document.
    TagNotDocument,
    /// A mapping whose key is no string.
    KeyNotString,
    /// A mapping whose value is neither tagged, a string nor a sequence.
    MappingValue,
    /// Any other value, a mapping without exactly one entry among them.
    InvalidItem,
}

/// One entry of a navigation specification.
#[derive(Debug, PartialEq)]
#[allow(inconsistent_fields)]
pub enum NavElem {
    /// `file.md`, `Name: file.md`
    File { name: Option<String>, path: String },
    /// `folder/`, `Name: folder/`
    Folder { name: Option<String>, path: String },
    /// `Name: !index abc.md`
    TaggedIndex { name: Option<String>, path: String },
    /// `Name: folder/*`
    Include { name: String, path: String },
    /// `Name:` with a sequence of entries below it
    Category { name: String, elems: Vec<NavElem> },
}

/// What a `NavElem` stands for.
#[allow(inconsistent_fields)]
pub ghost enum NavElemView {
    File { name: Option<Seq<char>>, path: Seq<char> },
    Folder { name: Option<Seq<char>>, path: Seq<char> },
    TaggedIndex { name: Option<Seq<char>>, path: Seq<char> },
    Include { name: Seq<char>, path: Seq<char> },
    Category { name: Seq<char>, elems: Seq<NavElemView> },
}

/// The characters of an optional string.
pub open spec fn opt_text(s: Option<String>) -> Option<Seq<char>> {
    match s {
        Some(s) => Some(s@),
        None => None,
    }
}

impl NavElem {
    /// The entry with every string replaced by its characters.
    pub open spec fn model(self) -> NavElemView
        decreases self,
    {
        match self {
            NavElem::File { name, path } => NavElemView::File { name: opt_text(name), path: path@ },
            NavElem::Folder { name, path } => NavElemView::Folder {
                name: opt_text(name),
                path: path@,
            },
            NavElem::TaggedIndex { name, path } => NavElemView::TaggedIndex {
                name: opt_text(name),
                path: path@,
            },
            NavElem::Include { name, path } => NavElemView::Include { name: name@, path: path@ },
            NavElem::Category { name, elems } => NavElemView::Category {
                name: name@,
                elems: Seq::new(
                    elems.len() as nat,
                    |i: int|
                        if 0 <= i < elems.len() {
                            elems[i].model()
                        } else {
                            NavElemView::Category { name: name@, elems: Seq::empty() }
                        },
                ),
            },
        }
    }
}

impl View for NavElem {
    type V = NavElemView;

    open spec fn view(&self) -> NavElemView {
        self.model()
    }
}

/// The models of a run of entries.
pub open spec fn elem_models(elems: Seq<NavElem>) -> Seq<NavElemView> {
    Seq::new(elems.len(), |i: int| elems[i]@)
}

/// The name of the index document of a folder.
pub open spec fn index_name() -> Seq<char> {
    "index.md"@
}

/// The end of a document's path.
pub open spec fn doc_suffix() -> Seq<char> {
    ".md"@
}

/// The end of a folder's path.
pub open spec fn folder_suffix() -> Seq<char> {
    "/"@
}

/// The end of a directory listing's path.
pub open spec fn listing_suffix() -> Seq<char> {
    "/*"@
}

/// The end of the path of a folder's own index document.
pub open spec fn index_suffix() -> Seq<char> {
    "/index.md"@
}

/// The tag of an explicit index document.
pub open spec fn index_tag_name() -> Seq<char> {
    "index"@
}

/// The tag of an explicit index document, as it is written.
pub open spec fn index_tag() -> Seq<char> {
    "!index"@
}

/// A tag without the `!` in front of it; a lone `!` is kept.
pub open spec fn tag_name(tag: Seq<char>) -> Seq<char> {
    if tag.len() > 1 && tag[0] == '!' {
        tag.drop_first()
    } else {
        tag
    }
}

/// The entry that a path stands for, with the name that came with it.
pub open spec fn parse_filename_spec(name: Option<Seq<char>>, path: Seq<char>) -> Result<
    NavElemView,
    DecodeError,
> {
    if path == index_name() {
        Err(DecodeError::SelfReference)
    } else if listing_suffix().is_suffix_of(path) {
        match name {
            Some(name) => Ok(
                NavElemView::Include { name, path: path.subrange(0, path.len() - 2) },
            ),
            None => Err(DecodeError::UnnamedListing),
        }
    } else if doc_suffix().is_suffix_of(path) {
        Ok(NavElemView::File { name, path })
    } else if folder_suffix().is_suffix_of(path) {
        Ok(NavElemView::Folder { name, path: path.drop_last() })
    } else if name is None {
        Err(DecodeError::NotFileOrFolder)
    } else {
        Err(DecodeError::NotFileFolderOrListing)
    }
}

/// The entry that a tagged value stands for, with the name that came with
/// it: a folder where the path names the folder's own `index.md`.
pub open spec fn parse_tagged_spec(name: Option<Seq<char>>, tag: Seq<char>, value: YamlView) -> Result<
    NavElemView,
    DecodeError,
> {
    if tag_name(tag) != index_tag_name() {
        Err(DecodeError::UnknownTag)
    } else {
        match value {
            YamlView::String(path) => {
                if !doc_suffix().is_suffix_of(path) {
                    Err(DecodeError::TagNotDocument)
                } else if path == index_name() {
                    Err(DecodeError::SelfReference)
                } else if index_suffix().is_suffix_of(path) {
                    Ok(NavElemView::Folder { name, path: path.subrange(0, path.len() - 9) })
                } else {
                    Ok(NavElemView::TaggedIndex { name, path })
                }
            },
            _ => Err(DecodeError::TagPayload),
        }
    }
}

/// The entry that a YAML value stands for.
pub open spec fn decode_spec(value: YamlView) -> Result<NavElemView, DecodeError>
    decreases value, 0nat,
{
    match value {
        YamlView::Tagged(tag, inner) => parse_tagged_spec(None, tag, *inner),
        YamlView::String(path) => parse_filename_spec(None, path),
        YamlView::Mapping(entries) => {
            if entries.len() == 1 {
                match entries[0].0 {
                    YamlView::String(name) => match entries[0].1 {
                        YamlView::Tagged(tag, inner) => parse_tagged_spec(Some(name), tag, *inner),
                        YamlView::String(path) => parse_filename_spec(Some(name), path),
                        YamlView::Sequence(items) => match decode_all_spec(items) {
                            Ok(elems) => Ok(NavElemView::Category { name, elems }),
                            Err(e) => Err(e),
                        },
                        _ => Err(DecodeError::MappingValue),
                    },
                    _ => Err(DecodeError::KeyNotString),
                }
            } else {
                Err(DecodeError::InvalidItem)
            }
        },
        _ => Err(DecodeError::InvalidItem),
    }
}

/// The entries that a run of YAML values stands for: the error of the first
/// value that is no entry, where there is one.
pub open spec fn decode_all_spec(items: Seq<YamlView>) -> Result<Seq<NavElemView>, DecodeError>
    decreases items, 1nat,
{
    if items.len() == 0 {
        Ok(Seq::empty())
    } else {
        match decode_all_spec(items.drop_last()) {
            Err(e) => Err(e),
            Ok(elems) => match decode_spec(items.last()) {
                Err(e) => Err(e),
                Ok(elem) => Ok(elems.push(elem)),
            },
        }
    }
}

/// A mapping with one entry, whose key is a string.
pub open spec fn singleton_map_spec(key: Seq<char>, value: YamlView) -> YamlView {
    YamlView::Mapping(seq![(YamlView::String(key), value)])
}

/// A value below its name, where it has one.
pub open spec fn named_value(name: Option<Seq<char>>, value: YamlView) -> YamlView {
    match name {
        Some(name) => singleton_map_spec(name, value),
        None => value,
    }
}

/// The YAML value that an entry is written as.
pub open spec fn encode_spec(elem: NavElemView) -> YamlView
    decreases elem,
{
    match elem {
        NavElemView::File { name, path } => named_value(name, YamlView::String(path)),
        NavElemView::Folder { name, path } => named_value(
            name,
            YamlView::String(path + folder_suffix()),
        ),
        NavElemView::TaggedIndex { name, path } => named_value(
            name,
            YamlView::Tagged(index_tag(), Box::new(YamlView::String(path))),
        ),
        NavElemView::Include { name, path } => singleton_map_spec(
            name,
            YamlView::String(path + listing_suffix()),
        ),
        NavElemView::Category { name, elems } => singleton_map_spec(
            name,
            YamlView::Sequence(
                Seq::new(
                    elems.len(),
                    |i: int|
                        if 0 <= i < elems.len() {
                            encode_spec(elems[i])
                        } else {
                            YamlView::Null
                        },
                ),
            ),
        ),
    }
}

/// The YAML values that a run of entries is written as.
pub open spec fn encode_all_spec(elems: Seq<NavElemView>) -> Seq<YamlView> {
    Seq::new(elems.len(), |i: int| encode_spec(elems[i]))
}

/// What the literals of the entry forms spell.
pub proof fn lemma_literals()
    ensures
        index_name() =~= seq!['i', 'n', 'd', 'e', 'x', '.', 'm', 'd'],
        doc_suffix() =~= seq!['.', 'm', 'd'],
        folder_suffix() =~= seq!['/'],
        listing_suffix() =~= seq!['/', '*'],
        index_suffix() =~= seq!['/', 'i', 'n', 'd', 'e', 'x', '.', 'm', 'd'],
        index_tag_name() =~= seq!['i', 'n', 'd', 'e', 'x'],
        index_tag() =~= seq!['!', 'i', 'n', 'd', 'e', 'x'],
        tag_name(index_tag()) =~= index_tag_name(),
{
    reveal_strlit("index.md");
    reveal_strlit(".md");
    reveal_strlit("/");
    reveal_strlit("/*");
    reveal_strlit("/index.md");
    reveal_strlit("index");
    reveal_strlit("!index");
}

/// Text with `suffix` put behind it ends with `suffix`, and is `rest` before
/// it.
pub proof fn lemma_concat_suffix(rest: Seq<char>, suffix: Seq<char>)
    ensures
        suffix.is_suffix_of(rest + suffix),
        (rest + suffix).subrange(0, (rest + suffix).len() - suffix.len()) =~= rest,
{
    let s = rest + suffix;
    assert(suffix =~= s.subrange(s.len() - suffix.len(), s.len() as int));
}

/// Text that ends with `suffix` ends with the last character of `suffix`.
pub proof fn lemma_suffix_last(suffix: Seq<char>, s: Seq<char>)
    requires
        suffix.is_suffix_of(s),
        suffix.len() > 0,
    ensures
        s.len() > 0,
        s.last() == suffix.last(),
{
    let t = s.subrange(s.len() - suffix.len(), s.len() as int);
    assert(t[suffix.len() - 1] == s[s.len() - 1]);
}

/// Where a front part of a run of values already fails, the run fails with
/// the same error.
pub proof fn lemma_decode_all_stops(items: Seq<YamlView>, n: int)
    requires
        0 <= n <= items.len(),
        decode_all_spec(items.take(n)) is Err,
    ensures
        decode_all_spec(items) == decode_all_spec(items.take(n)),
    decreases items.len(),
{
    if n == items.len() {
        assert(items.take(n) =~= items);
    } else {
        assert(items.drop_last().take(n) =~= items.take(n));
        lemma_decode_all_stops(items.drop_last(), n);
    }
}

/// The result of a decoder, with the entry replaced by its model.
pub open spec fn decoded(r: Result<NavElem, DecodeError>) -> Result<NavElemView, DecodeError> {
    match r {
        Ok(elem) => Ok(elem@),
        Err(e) => Err(e),
    }
}

/// The result of a decoder of runs, with each entry replaced by its model.
pub open spec fn decoded_all(r: Result<Vec<NavElem>, DecodeError>) -> Result<
    Seq<NavElemView>,
    DecodeError,
> {
    match r {
        Ok(elems) => Ok(elem_models(elems@)),
        Err(e) => Err(e),
    }
}

/// A copy of an optional string.
pub(crate) fn clone_opt(s: &Option<String>) -> (r: Option<String>)
    ensures
        opt_text(r) == opt_text(*s),
{
    match s {
        Some(s) => Some(s.clone()),
        None => None,
    }
}

/// The entry that `path` stands for, under `name`.
pub fn parse_filename(name: Option<String>, path: String) -> (r: Result<NavElem, DecodeError>)
    ensures
        decoded(r) == parse_filename_spec(opt_text(name), path@),
{
    proof {
        lemma_literals();
    }
    if same_text(path.as_str(), "index.md") {
        return Err(DecodeError::SelfReference);
    }
    match strip_suffix(path.as_str(), "/*") {
        Some(dir) => {
            proof {
                lemma_concat_suffix(dir@, listing_suffix());
            }
            return match name {
                Some(name) => Ok(NavElem::Include { name, path: dir.to_owned() }),
                None => Err(DecodeError::UnnamedListing),
            };
        },
        None => {},
    }
    if ends_with(path.as_str(), ".md") {
        return Ok(NavElem::File { name, path });
    }
    match strip_suffix(path.as_str(), "/") {
        Some(dir) => {
            proof {
                lemma_concat_suffix(dir@, folder_suffix());
                assert(path@.drop_last() =~= dir@);
            }
            Ok(NavElem::Folder { name, path: dir.to_owned() })
        },
        None => {
            if name.is_none() {
                Err(DecodeError::NotFileOrFolder)
            } else {
                Err(DecodeError::NotFileFolderOrListing)
            }
        },
    }
}

/// Whether `tag`, with or without its `!`, is the tag `index`.
fn is_index_tag(tag: &str) -> (r: bool)
    ensures
        r == (tag_name(tag@) == index_tag_name()),
{
    proof {
        lemma_literals();
        reveal_strlit("!");
    }
    match strip_prefix(tag, "!") {
        Some(rest) => {
            proof {
                assert(tag@[0] == '!');
                assert(tag@.drop_first() =~= rest@);
            }
            if rest.is_empty() {
                same_text(tag, "index")
            } else {
                same_text(rest, "index")
            }
        },
        None => {
            proof {
                if tag@.len() > 1 && tag@[0] == '!' {
                    assert(tag@.subrange(0, 1) =~= "!"@);
                }
            }
            same_text(tag, "index")
        },
    }
}

/// The entry that `value` under `tag` stands for, under `name`.
pub fn parse_tagged(name: Option<String>, tag: &str, value: &YamlValue) -> (r: Result<
    NavElem,
    DecodeError,
>)
    ensures
        decoded(r) == parse_tagged_spec(opt_text(name), tag@, value@),
{
    proof {
        lemma_literals();
    }
    if !is_index_tag(tag) {
        return Err(DecodeError::UnknownTag);
    }
    match value {
        YamlValue::String(path) => {
            if !ends_with(path.as_str(), ".md") {
                return Err(DecodeError::TagNotDocument);
            }
            if same_text(path.as_str(), "index.md") {
                return Err(DecodeError::SelfReference);
            }
            match strip_suffix(path.as_str(), "/index.md") {
                Some(dir) => {
                    proof {
                        lemma_concat_suffix(dir@, index_suffix());
                    }
                    Ok(NavElem::Folder { name, path: dir.to_owned() })
                },
                None => Ok(NavElem::TaggedIndex { name, path: path.clone() }),
            }
        },
        _ => Err(DecodeError::TagPayload),
    }
}

/// A mapping with the one entry `key: value`.
fn singleton_map(key: String, value: YamlValue) -> (r: YamlValue)
    ensures
        r@ == singleton_map_spec(key@, value@),
{
    let mut entries: Vec<YamlEntry> = Vec::new();
    entries.push(YamlEntry { key: YamlValue::String(key), value });
    let r = YamlValue::Mapping(entries);
    proof {
        reveal_with_fuel(YamlValue::model, 2);
        assert(r@->Mapping_0 =~= seq![(YamlView::String(key@), value@)]);
    }
    r
}

/// `value` below `name`, where there is one.
fn named(name: &Option<String>, value: YamlValue) -> (r: YamlValue)
    ensures
        r@ == named_value(opt_text(*name), value@),
{
    match name {
        Some(name) => singleton_map(name.clone(), value),
        None => value,
    }
}

/// `value` under `tag`.
fn tagged_value(tag: &str, value: YamlValue) -> (r: YamlValue)
    ensures
        r@ == YamlView::Tagged(tag@, Box::new(value@)),
{
    YamlValue::Tagged(tag.to_owned(), Box::new(value))
}

impl NavElem {
    /// The entry that `value` stands for.
    pub fn decode(value: &YamlValue) -> (r: Result<NavElem, DecodeError>)
        ensures
            decoded(r) == decode_spec(value@),
        decreases value,
    {
        proof {
            reveal_with_fuel(YamlValue::model, 2);
        }
        match value {
            YamlValue::Tagged(tag, inner) => parse_tagged(None, tag.as_str(), inner),
            YamlValue::String(path) => parse_filename(None, path.clone()),
            YamlValue::Mapping(entries) => {
                if entries.len() != 1 {
                    return Err(DecodeError::InvalidItem);
                }
                let entry = &entries[0];
                proof {
                    assert(value@->Mapping_0.len() == 1);
                    assert(value@->Mapping_0[0] == (entry.key@, entry.value@));
                }
                match &entry.key {
                    YamlValue::String(name) => match &entry.value {
                        YamlValue::Tagged(tag, inner) => parse_tagged(
                            Some(name.clone()),
                            tag.as_str(),
                            inner,
                        ),
                        YamlValue::String(path) => parse_filename(Some(name.clone()), path.clone()),
                        YamlValue::Sequence(items) => {
                            proof {
                                assert(entry.value@->Sequence_0 =~= models(items@));
                            }
                            match NavElem::decode_all(items) {
                                Ok(elems) => {
                                    let r = NavElem::Category { name: name.clone(), elems };
                                    proof {
                                        assert(r@->Category_elems =~= elem_models(elems@));
                                    }
                                    Ok(r)
                                },
                                Err(e) => Err(e),
                            }
                        },
                        _ => Err(DecodeError::MappingValue),
                    },
                    _ => Err(DecodeError::KeyNotString),
                }
            },
            _ => Err(DecodeError::InvalidItem),
        }
    }

    /// The entries that `items` stand for, or the error of the first that
    /// stands for none.
    pub fn decode_all(items: &Vec<YamlValue>) -> (r: Result<Vec<NavElem>, DecodeError>)
        ensures
            decoded_all(r) == decode_all_spec(models(items@)),
        decreases items,
    {
        let ghost all = models(items@);
        let mut elems: Vec<NavElem> = Vec::new();
        let mut i: usize = 0;
        assert(all.take(0) =~= Seq::<YamlView>::empty());
        assert(elem_models(elems@) =~= Seq::<NavElemView>::empty());
        while i < items.len()
            invariant
                i <= items.len(),
                all == models(items@),
                decode_all_spec(all.take(i as int)) == Ok::<Seq<NavElemView>, DecodeError>(
                    elem_models(elems@),
                ),
            decreases items.len() - i,
        {
            let ghost before = elems@;
            proof {
                assert(all.take(i + 1).drop_last() =~= all.take(i as int));
                assert(all.take(i + 1).last() == items[i as int]@);
            }
            match NavElem::decode(&items[i]) {
                Ok(elem) => {
                    elems.push(elem);
                    proof {
                        assert(elem_models(elems@) =~= elem_models(before).push(elem@));
                    }
                },
                Err(e) => {
                    proof {
                        lemma_decode_all_stops(all, i + 1);
                    }
                    return Err(e);
                },
            }
            i += 1;
        }
        proof {
            assert(all.take(i as int) =~= all);
        }
        Ok(elems)
    }

    /// The YAML value that the entry is written as.
    pub fn encode(&self) -> (r: YamlValue)
        ensures
            r@ == encode_spec(self@),
            writable(r@),
        decreases self,
    {
        proof {
            lemma_literals();
            reveal_with_fuel(writable, 3);
        }
        match self {
            NavElem::File { name, path } => named(name, YamlValue::String(path.clone())),
            NavElem::Folder { name, path } => named(
                name,
                YamlValue::String(path.clone().concat("/")),
            ),
            NavElem::TaggedIndex { name, path } => named(
                name,
                tagged_value("!index", YamlValue::String(path.clone())),
            ),
            NavElem::Include { name, path } => singleton_map(
                name.clone(),
                YamlValue::String(path.clone().concat("/*")),
            ),
            NavElem::Category { name, elems } => {
                let items = NavElem::encode_all(elems);
                let seq = YamlValue::Sequence(items);
                proof {
                    assert(seq@->Sequence_0 =~= models(items@));
                    assert(self@->Category_elems =~= elem_models(elems@));
                    assert(models(items@) =~= encode_spec(self@)->Mapping_0[0].1->Sequence_0);
                }
                singleton_map(name.clone(), seq)
            },
        }
    }

    /// The YAML values that the entries are written as.
    pub fn encode_all(elems: &Vec<NavElem>) -> (r: Vec<YamlValue>)
        ensures
            models(r@) == encode_all_spec(elem_models(elems@)),
            forall|i: int| 0 <= i < r.len() ==> writable(#[trigger] r[i]@),
        decreases elems,
    {
        let mut items: Vec<YamlValue> = Vec::new();
        let mut i: usize = 0;
        while i < elems.len()
            invariant
                i <= elems.len(),
                items.len() == i,
                forall|j: int| 0 <= j < i ==> (#[trigger] items[j])@ == encode_spec(elems[j]@),
                forall|j: int| 0 <= j < i ==> writable(#[trigger] items[j]@),
            decreases elems.len() - i,
        {
            let item = elems[i].encode();
            items.push(item);
            i += 1;
        }
        proof {
            assert(models(items@) =~= encode_all_spec(elem_models(elems@)));
        }
        items
    }
}

impl Clone for NavElem {
    fn clone(&self) -> (r: Self)
        ensures
            r@ == self@,
        decreases self,
    {
        match self {
            NavElem::File { name, path } => NavElem::File {
                name: clone_opt(name),
                path: path.clone(),
            },
            NavElem::Folder { name, path } => NavElem::Folder {
                name: clone_opt(name),
                path: path.clone(),
            },
            NavElem::TaggedIndex { name, path } => NavElem::TaggedIndex {
                name: clone_opt(name),
                path: path.clone(),
            },
            NavElem::Include { name, path } => NavElem::Include {
                name: name.clone(),
                path: path.clone(),
            },
            NavElem::Category { name, elems } => {
                let copies = clone_elems(elems);
                let r = NavElem::Category { name: name.clone(), elems: copies };
                proof {
                    assert(r@->Category_elems =~= elem_models(copies@));
                    assert(self@->Category_elems =~= elem_models(elems@));
                }
                r
            },
        }
    }
}

/// A copy of a run of entries.
fn clone_elems(elems: &Vec<NavElem>) -> (r: Vec<NavElem>)
    ensures
        elem_models(r@) == elem_models(elems@),
    decreases elems,
{
    let mut copies: Vec<NavElem> = Vec::new();
    let mut i: usize = 0;
    while i < elems.len()
        invariant
            i <= elems.len(),
            copies.len() == i,
            forall|j: int| 0 <= j < i ==> (#[trigger] copies[j])@ == elems[j]@,
        decreases elems.len() - i,
    {
        let copy = elems[i].clone();
        copies.push(copy);
        i += 1;
    }
    proof {
        assert(elem_models(copies@) =~= elem_models(elems@));
    }
    copies
}

/// Reading a value below its name is reading a path or a tagged value with
/// that name.
proof fn lemma_decode_named(name: Option<Seq<char>>, value: YamlView)
    ensures
        value matches YamlView::String(path) ==> decode_spec(named_value(name, value))
            == parse_filename_spec(name, path),
        value matches YamlView::Tagged(tag, inner) ==> decode_spec(named_value(name, value))
            == parse_tagged_spec(name, tag, *inner),
{
}

/// An entry that was read from a path is read again from what it is written
/// as.
proof fn lemma_filename_round_trip(name: Option<Seq<char>>, path: Seq<char>)
    ensures
        parse_filename_spec(name, path) matches Ok(elem) ==> decode_spec(encode_spec(elem)) == Ok::<
            NavElemView,
            DecodeError,
        >(elem),
{
    lemma_literals();
    match parse_filename_spec(name, path) {
        Ok(NavElemView::Include { name: n, path: dir }) => {
            assert(dir + listing_suffix() =~= path);
            lemma_decode_named(name, YamlView::String(path));
        },
        Ok(NavElemView::File { .. }) => {
            lemma_decode_named(name, YamlView::String(path));
        },
        Ok(NavElemView::Folder { name: n, path: dir }) => {
            assert(dir + folder_suffix() =~= path);
            lemma_decode_named(name, YamlView::String(path));
        },
        _ => {},
    }
}

/// An entry that was read from a tagged value is read again from what it is
/// written as.
proof fn lemma_tagged_round_trip(name: Option<Seq<char>>, tag: Seq<char>, value: YamlView)
    ensures
        parse_tagged_spec(name, tag, value) matches Ok(elem) ==> decode_spec(encode_spec(elem))
            == Ok::<NavElemView, DecodeError>(elem),
{
    lemma_literals();
    match parse_tagged_spec(name, tag, value) {
        Ok(NavElemView::TaggedIndex { name: n, path }) => {
            let written = YamlView::Tagged(index_tag(), Box::new(YamlView::String(path)));
            lemma_decode_named(name, written);
        },
        Ok(NavElemView::Folder { name: n, path: dir }) => {
            let written = dir + folder_suffix();
            lemma_decode_named(name, YamlView::String(written));
            lemma_concat_suffix(dir, folder_suffix());
            assert(written.last() == '/');
            assert(written.drop_last() =~= dir);
            if listing_suffix().is_suffix_of(written) {
                lemma_suffix_last(listing_suffix(), written);
            }
            if doc_suffix().is_suffix_of(written) {
                lemma_suffix_last(doc_suffix(), written);
            }
        },
        _ => {},
    }
}

/// Entries that were read from a run of values are read again from what
/// they are written as.
proof fn lemma_decode_encode_all(items: Seq<YamlView>)
    ensures
        decode_all_spec(items) matches Ok(elems) ==> decode_all_spec(encode_all_spec(elems)) == Ok::<
            Seq<NavElemView>,
            DecodeError,
        >(elems),
    decreases items, 1nat,
{
    if items.len() == 0 {
        assert(encode_all_spec(Seq::<NavElemView>::empty()) =~= Seq::<YamlView>::empty());
    } else {
        lemma_decode_encode_all(items.drop_last());
        lemma_decode_encode(items.last());
        if let Ok(elems) = decode_all_spec(items) {
            let front = decode_all_spec(items.drop_last())->Ok_0;
            let elem = decode_spec(items.last())->Ok_0;
            assert(elems == front.push(elem));
            assert(encode_all_spec(elems).drop_last() =~= encode_all_spec(front));
            assert(encode_all_spec(elems).last() == encode_spec(elem));
        }
    }
}

/// Writing an entry that was read and reading it back gives the entry
/// again. (What was read need not be what is written: `!index dir/index.md`
/// is read as the folder `dir` and written as `dir/`.)
pub proof fn lemma_decode_encode(value: YamlView)
    ensures
        decode_spec(value) matches Ok(elem) ==> decode_spec(encode_spec(elem)) == Ok::<
            NavElemView,
            DecodeError,
        >(elem),
    decreases value, 0nat,
{
    match value {
        YamlView::Tagged(tag, inner) => lemma_tagged_round_trip(None, tag, *inner),
        YamlView::String(path) => lemma_filename_round_trip(None, path),
        YamlView::Mapping(entries) => {
            if entries.len() == 1 {
                match entries[0].0 {
                    YamlView::String(name) => match entries[0].1 {
                        YamlView::Tagged(tag, inner) => lemma_tagged_round_trip(
                            Some(name),
                            tag,
                            *inner,
                        ),
                        YamlView::String(path) => lemma_filename_round_trip(Some(name), path),
                        YamlView::Sequence(items) => {
                            lemma_decode_encode_all(items);
                            if let Ok(elems) = decode_all_spec(items) {
                                let elem = NavElemView::Category { name, elems };
                                assert(encode_spec(elem)->Mapping_0[0].1->Sequence_0
                                    =~= encode_all_spec(elems));
                            }
                        },
                        _ => {},
                    },
                    _ => {},
                }
            }
        },
        _ => {},
    }
}

/// The index document of a folder under the tag `index` is read as the
/// folder, and written as the folder: the tagged form does not come back.
pub proof fn lemma_tagged_folder(name: Option<Seq<char>>, dir: Seq<char>)
    ensures
        parse_tagged_spec(name, index_tag(), YamlView::String(dir + index_suffix())) == Ok::<
            NavElemView,
            DecodeError,
        >(NavElemView::Folder { name, path: dir }),
        encode_spec(NavElemView::Folder { name, path: dir }) == named_value(
            name,
            YamlView::String(dir + folder_suffix()),
        ),
{
    lemma_literals();
    let path = dir + index_suffix();
    lemma_concat_suffix(dir, index_suffix());
    assert(doc_suffix().is_suffix_of(path)) by {
        assert(path.subrange(path.len() - 3, path.len() as int) =~= doc_suffix());
    }
    assert(path.subrange(0, path.len() - 9) =~= dir);
}

/// `index.md` itself is no entry: not as a path, not under a tag, with a
/// name or without one.
pub proof fn lemma_index_rejected(name: Option<Seq<char>>, tag: Seq<char>)
    ensures
        parse_filename_spec(name, index_name()) == Err::<NavElemView, DecodeError>(
            DecodeError::SelfReference,
        ),
        parse_tagged_spec(name, tag, YamlView::String(index_name())) is Err,
        decode_spec(named_value(name, YamlView::String(index_name()))) is Err,
        decode_spec(
            named_value(name, YamlView::Tagged(tag, Box::new(YamlView::String(index_name())))),
        ) is Err,
{
    lemma_decode_named(name, YamlView::String(index_name()));
    lemma_decode_named(name, YamlView::Tagged(tag, Box::new(YamlView::String(index_name()))));
}

/// Why a YAML value is no front matter.
#[derive(Debug, Clone, Copy, PartialEq, Eq)]
pub enum FrontMatterError {
    /// The value is neither a mapping nor empty.
    NotMapping,
    /// A key other than `name` and `nav`.
    UnknownField,
    /// `name` or `nav` for the second time.
    DuplicateField,
    /// A `name` that is no scalar.
    BadName,
    /// A `nav` that is neither a sequence nor empty.
    BadNav,
    /// A value under `nav` that is no navigation entry.
    Nav(DecodeError),
}

/// The front matter of a document: the name it gives itself, and its
/// navigation entries. A document without `nav` has no entries.
#[derive(Debug, PartialEq)]
pub struct FrontMatter {
    pub name: Option<String>,
    pub nav: Vec<NavElem>,
}

/// What a `FrontMatter` stands for.
pub ghost struct FrontMatterView {
    pub name: Option<Seq<char>>,
    pub nav: Seq<NavElemView>,
}

impl View for FrontMatter {
    type V = FrontMatterView;

    open spec fn view(&self) -> FrontMatterView {
        FrontMatterView { name: opt_text(self.name), nav: elem_models(self.nav@) }
    }
}

/// The fields read so far from a front matter mapping.
pub ghost struct Fields {
    pub name_seen: bool,
    pub nav_seen: bool,
    pub found: FrontMatterView,
}

/// The key of the name that a document gives itself.
pub open spec fn name_key() -> Seq<char> {
    "name"@
}

/// The key of the navigation entries.
pub open spec fn nav_key() -> Seq<char> {
    "nav"@
}

/// No field read yet.
pub open spec fn no_fields() -> Fields {
    Fields {
        name_seen: false,
        nav_seen: false,
        found: FrontMatterView { name: None, nav: Seq::empty() },
    }
}

/// The text of a truth value, as YAML writes it.
pub open spec fn bool_text(b: bool) -> Seq<char> {
    if b {
        "true"@
    } else {
        "false"@
    }
}

/// The name that a scalar gives: the text of a string, of a number or of a
/// truth value, and no name for nothing. What is no scalar gives none of
/// them.
pub open spec fn scalar_text(value: YamlView) -> Option<Option<Seq<char>>> {
    match value {
        YamlView::String(text) => Some(Some(text)),
        YamlView::Number(text) => Some(Some(text)),
        YamlView::Bool(b) => Some(Some(bool_text(b))),
        YamlView::Null => Some(None),
        _ => None,
    }
}

/// The fields after one more entry of the mapping: `name` takes a scalar,
/// `nav` a sequence of entries or nothing.
pub open spec fn field_spec(seen: Fields, key: YamlView, value: YamlView) -> Result<
    Fields,
    FrontMatterError,
> {
    match key {
        YamlView::String(key) => {
            if key == name_key() {
                if seen.name_seen {
                    Err(FrontMatterError::DuplicateField)
                } else {
                    match scalar_text(value) {
                        Some(name) => Ok(
                            Fields {
                                name_seen: true,
                                found: FrontMatterView { name, ..seen.found },
                                ..seen
                            },
                        ),
                        None => Err(FrontMatterError::BadName),
                    }
                }
            } else if key == nav_key() {
                if seen.nav_seen {
                    Err(FrontMatterError::DuplicateField)
                } else {
                    match value {
                        YamlView::Sequence(items) => match decode_all_spec(items) {
                            Ok(nav) => Ok(
                                Fields {
                                    nav_seen: true,
                                    found: FrontMatterView { nav, ..seen.found },
                                    ..seen
                                },
                            ),
                            Err(e) => Err(FrontMatterError::Nav(e)),
                        },
                        YamlView::Null => Ok(Fields { nav_seen: true, ..seen }),
                        _ => Err(FrontMatterError::BadNav),
                    }
                }
            } else {
                Err(FrontMatterError::UnknownField)
            }
        },
        _ => Err(FrontMatterError::UnknownField),
    }
}

/// The fields of a front matter mapping, read entry by entry: the error of
/// the first entry that is out of place, where there is one.
pub open spec fn fields_spec(entries: Seq<(YamlView, YamlView)>) -> Result<Fields, FrontMatterError>
    decreases entries.len(),
{
    if entries.len() == 0 {
        Ok(no_fields())
    } else {
        match fields_spec(entries.drop_last()) {
            Err(e) => Err(e),
            Ok(seen) => field_spec(seen, entries.last().0, entries.last().1),
        }
    }
}

/// The front matter that a YAML value stands for: a mapping with no keys
/// but `name` and `nav`, or nothing at all.
pub open spec fn front_matter_spec(value: YamlView) -> Result<FrontMatterView, FrontMatterError> {
    match value {
        YamlView::Null => Ok(no_fields().found),
        YamlView::Mapping(entries) => match fields_spec(entries) {
            Ok(fields) => Ok(fields.found),
            Err(e) => Err(e),
        },
        _ => Err(FrontMatterError::NotMapping),
    }
}

/// The entries that a front matter is written as: its name where it has
/// one, then its navigation entries where it has any.
pub open spec fn front_matter_entries(fm: FrontMatterView) -> Seq<(YamlView, YamlView)> {
    let name_part = match fm.name {
        Some(name) => seq![(YamlView::String(name_key()), YamlView::String(name))],
        None => Seq::empty(),
    };
    let nav_part = if fm.nav.len() > 0 {
        seq![(YamlView::String(nav_key()), YamlView::Sequence(encode_all_spec(fm.nav)))]
    } else {
        Seq::empty()
    };
    name_part + nav_part
}

/// Where a front part of a mapping is already out of place, the mapping
/// fails with the same error.
pub proof fn lemma_fields_stop(entries: Seq<(YamlView, YamlView)>, n: int)
    requires
        0 <= n <= entries.len(),
        fields_spec(entries.take(n)) is Err,
    ensures
        fields_spec(entries) == fields_spec(entries.take(n)),
    decreases entries.len(),
{
    if n == entries.len() {
        assert(entries.take(n) =~= entries);
    } else {
        assert(entries.drop_last().take(n) =~= entries.take(n));
        lemma_fields_stop(entries.drop_last(), n);
    }
}

/// The navigation entries among the fields of a mapping were read from a
/// run of values, unless there are none.
proof fn lemma_fields_nav(entries: Seq<(YamlView, YamlView)>)
    ensures
        fields_spec(entries) matches Ok(fields) ==> fields.found.nav.len() == 0 || exists|
            items: Seq<YamlView>,
        | #[trigger] decode_all_spec(items) == Ok::<Seq<NavElemView>, DecodeError>(fields.found.nav),
    decreases entries.len(),
{
    if entries.len() > 0 {
        lemma_fields_nav(entries.drop_last());
        if let Ok(fields) = fields_spec(entries) {
            let seen = fields_spec(entries.drop_last())->Ok_0;
            if fields.found.nav != seen.found.nav {
                let items = entries.last().1->Sequence_0;
                assert(decode_all_spec(items) == Ok::<Seq<NavElemView>, DecodeError>(
                    fields.found.nav,
                ));
            }
        }
    }
}

/// Writing a front matter that was read and reading it back gives the front
/// matter again.
pub proof fn lemma_front_matter_round_trip(value: YamlView)
    ensures
        front_matter_spec(value) matches Ok(fm) ==> front_matter_spec(
            YamlView::Mapping(front_matter_entries(fm)),
        ) == Ok::<FrontMatterView, FrontMatterError>(fm),
{
    reveal_strlit("name");
    reveal_strlit("nav");
    reveal_with_fuel(fields_spec, 3);
    if let Ok(fm) = front_matter_spec(value) {
        let written = front_matter_entries(fm);
        if fm.nav.len() > 0 {
            let entries = value->Mapping_0;
            lemma_fields_nav(entries);
            let items = choose|items: Seq<YamlView>| #[trigger]
                decode_all_spec(items) == Ok::<Seq<NavElemView>, DecodeError>(fm.nav);
            lemma_decode_encode_all(items);
        }
        let nav_entry = (YamlView::String(nav_key()), YamlView::Sequence(encode_all_spec(fm.nav)));
        match fm.name {
            Some(name) => {
                let name_entry = (YamlView::String(name_key()), YamlView::String(name));
                if fm.nav.len() > 0 {
                    assert(written =~= seq![name_entry, nav_entry]);
                    assert(written.drop_last() =~= seq![name_entry]);
                    assert(written.drop_last().drop_last() =~= Seq::empty());
                } else {
                    assert(written =~= seq![name_entry]);
                    assert(written.drop_last() =~= Seq::empty());
                    assert(fm.nav =~= Seq::empty());
                }
            },
            None => {
                if fm.nav.len() > 0 {
                    assert(written =~= seq![nav_entry]);
                    assert(written.drop_last() =~= Seq::empty());
                } else {
                    assert(written =~= Seq::empty());
                    assert(fm.nav =~= Seq::empty());
                }
            },
        }
    }
}

/// The result of reading a front matter, with the front matter replaced by
/// its model.
pub open spec fn front_matter_read(r: Result<FrontMatter, FrontMatterError>) -> Result<
    FrontMatterView,
    FrontMatterError,
> {
    match r {
        Ok(fm) => Ok(fm@),
        Err(e) => Err(e),
    }
}

impl Default for FrontMatter {
    fn default() -> (fm: FrontMatter)
        ensures
            fm@ == no_fields().found,
    {
        let fm = FrontMatter { name: None, nav: Vec::new() };
        proof {
            assert(fm@.nav =~= Seq::<NavElemView>::empty());
        }
        fm
    }
}

impl Clone for FrontMatter {
    fn clone(&self) -> (r: Self)
        ensures
            r@ == self@,
    {
        FrontMatter { name: clone_opt(&self.name), nav: clone_elems(&self.nav) }
    }
}

impl FrontMatter {
    /// The front matter that `value` stands for.
    pub fn decode(value: &YamlValue) -> (r: Result<FrontMatter, FrontMatterError>)
        ensures
            front_matter_read(r) == front_matter_spec(value@),
    {
        let entries = match value {
            YamlValue::Null => {
                return Ok(FrontMatter::default());
            },
            YamlValue::Mapping(entries) => entries,
            _ => {
                return Err(FrontMatterError::NotMapping);
            },
        };
        let ghost all = value@->Mapping_0;
        let mut name: Option<String> = None;
        let mut name_seen = false;
        let mut nav: Vec<NavElem> = Vec::new();
        let mut nav_seen = false;
        let mut i: usize = 0;
        proof {
            assert(all.take(0) =~= Seq::<(YamlView, YamlView)>::empty());
            assert(elem_models(nav@) =~= Seq::<NavElemView>::empty());
        }
        while i < entries.len()
            invariant
                i <= entries.len(),
                value@ == YamlView::Mapping(all),
                all.len() == entries.len(),
                forall|j: int|
                    0 <= j < entries.len() ==> #[trigger] all[j] == (
                        entries[j].key@,
                        entries[j].value@,
                    ),
                fields_spec(all.take(i as int)) == Ok::<Fields, FrontMatterError>(
                    Fields {
                        name_seen,
                        nav_seen,
                        found: FrontMatterView { name: opt_text(name), nav: elem_models(nav@) },
                    },
                ),
            decreases entries.len() - i,
        {
            proof {
                reveal_strlit("name");
                reveal_strlit("nav");
                assert(all.take(i + 1).drop_last() =~= all.take(i as int));
                assert(all.take(i + 1).last() == all[i as int]);
                if fields_spec(all.take(i + 1)) is Err {
                    lemma_fields_stop(all, i + 1);
                }
            }
            let entry = &entries[i];
            let key = match &entry.key {
                YamlValue::String(key) => key,
                _ => {
                    return Err(FrontMatterError::UnknownField);
                },
            };
            if same_text(key.as_str(), "name") {
                if name_seen {
                    return Err(FrontMatterError::DuplicateField);
                }
                match &entry.value {
                    YamlValue::String(text) => {
                        name = Some(text.clone());
                    },
                    YamlValue::Number(text) => {
                        name = Some(text.clone());
                    },
                    YamlValue::Bool(b) => {
                        if *b {
                            name = Some("true".to_owned());
                        } else {
                            name = Some("false".to_owned());
                        }
                    },
                    YamlValue::Null => {
                        name = None;
                    },
                    _ => {
                        return Err(FrontMatterError::BadName);
                    },
                }
                name_seen = true;
            } else if same_text(key.as_str(), "nav") {
                if nav_seen {
                    return Err(FrontMatterError::DuplicateField);
                }
                match &entry.value {
                    YamlValue::Sequence(items) => {
                        proof {
                            assert(entry.value@->Sequence_0 =~= models(items@));
                        }
                        match NavElem::decode_all(items) {
                            Ok(elems) => {
                                nav = elems;
                            },
                            Err(e) => {
                                return Err(FrontMatterError::Nav(e));
                            },
                        }
                    },
                    YamlValue::Null => {},
                    _ => {
                        return Err(FrontMatterError::BadNav);
                    },
                }
                nav_seen = true;
            } else {
                return Err(FrontMatterError::UnknownField);
            }
            i += 1;
        }
        proof {
            assert(all.take(i as int) =~= all);
        }
        Ok(FrontMatter { name, nav })
    }

    /// Whether the front matter says nothing: it is then not written at all.
    pub fn is_empty(&self) -> (r: bool)
        ensures
            r == (front_matter_entries(self@).len() == 0),
    {
        self.name.is_none() && self.nav.len() == 0
    }

    /// The mapping that the front matter is written as.
    pub fn encode(&self) -> (r: YamlValue)
        ensures
            r@ == YamlView::Mapping(front_matter_entries(self@)),
            writable(r@),
    {
        let mut entries: Vec<YamlEntry> = Vec::new();
        match &self.name {
            Some(name) => {
                entries.push(
                    YamlEntry {
                        key: YamlValue::String("name".to_owned()),
                        value: YamlValue::String(name.clone()),
                    },
                );
            },
            None => {},
        }
        if self.nav.len() > 0 {
            let items = NavElem::encode_all(&self.nav);
            let seq = YamlValue::Sequence(items);
            proof {
                assert(seq@->Sequence_0 =~= models(items@));
                assert(writable(seq@));
            }
            entries.push(YamlEntry { key: YamlValue::String("nav".to_owned()), value: seq });
        }
        let r = YamlValue::Mapping(entries);
        proof {
            reveal_with_fuel(YamlValue::model, 2);
            reveal_with_fuel(writable, 2);
            assert(r@->Mapping_0 =~= front_matter_entries(self@));
        }
        r
    }
}

} // verus!
