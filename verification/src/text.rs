//! Text primitives: contracts for the string operations of the standard
//! library that the rest of the crate is built on, and the order on text.

use vstd::prelude::*;

verus! {

/// `needle` occurs in `s` at position `at`.
pub open spec fn occurs_at(s: Seq<char>, needle: Seq<char>, at: int) -> bool {
    0 <= at && at + needle.len() <= s.len() && s.subrange(at, at + needle.len()) == needle
}

/// The first position at which `needle` occurs in `s`, or -1 where it does
/// not occur.
pub open spec fn find(s: Seq<char>, needle: Seq<char>) -> int
    decreases s.len(),
{
    if needle.is_prefix_of(s) {
        0
    } else if s.len() == 0 {
        -1
    } else {
        let behind = find(s.drop_first(), needle);
        if behind < 0 {
            -1
        } else {
            behind + 1
        }
    }
}

/// `find` gives the first occurrence, and -1 where there is none.
pub proof fn lemma_find(s: Seq<char>, needle: Seq<char>)
    ensures
        -1 <= find(s, needle),
        find(s, needle) >= 0 ==> occurs_at(s, needle, find(s, needle)),
        forall|i: int| 0 <= i < find(s, needle) ==> !occurs_at(s, needle, i),
        find(s, needle) == -1 ==> forall|i: int| !occurs_at(s, needle, i),
    decreases s.len(),
{
    if needle.is_prefix_of(s) {
        assert(s.subrange(0, needle.len() as int) =~= needle);
    } else if s.len() == 0 {
        assert forall|i: int| !occurs_at(s, needle, i) by {
            if occurs_at(s, needle, i) {
                assert(s.subrange(0, 0) =~= needle);
            }
        }
    } else {
        let t = s.drop_first();
        lemma_find(t, needle);
        let behind = find(t, needle);
        assert(!occurs_at(s, needle, 0)) by {
            if occurs_at(s, needle, 0) {
                assert(needle =~= s.subrange(0, needle.len() as int));
            }
        }
        assert forall|i: int| 1 <= i && occurs_at(s, needle, i) implies occurs_at(
            t,
            needle,
            i - 1,
        ) by {
            assert(t.subrange(i - 1, i - 1 + needle.len()) =~= s.subrange(i, i + needle.len()));
        }
        if behind >= 0 {
            assert(s.subrange(behind + 1, behind + 1 + needle.len()) =~= t.subrange(
                behind,
                behind + needle.len(),
            ));
        }
    }
}

/// `a` comes before `b`, or equals it, in the lexicographic order by code
/// point.
pub open spec fn text_le(a: Seq<char>, b: Seq<char>) -> bool
    decreases a.len(),
{
    if a.len() == 0 {
        true
    } else if b.len() == 0 {
        false
    } else if a[0] != b[0] {
        (a[0] as u32) < (b[0] as u32)
    } else {
        text_le(a.drop_first(), b.drop_first())
    }
}

/// Every text comes before or equals itself.
pub proof fn lemma_text_le_reflexive(a: Seq<char>)
    ensures
        text_le(a, a),
    decreases a.len(),
{
    if a.len() > 0 {
        lemma_text_le_reflexive(a.drop_first());
    }
}

/// Of two texts, one comes before or equals the other.
pub proof fn lemma_text_le_total(a: Seq<char>, b: Seq<char>)
    ensures
        text_le(a, b) || text_le(b, a),
    decreases a.len(),
{
    if a.len() > 0 && b.len() > 0 {
        if a[0] == b[0] {
            lemma_text_le_total(a.drop_first(), b.drop_first());
        } else {
            assert(a[0] as u32 != b[0] as u32) by {
                vstd::utf8::char_u32_cast(a[0], a[0] as u32);
                vstd::utf8::char_u32_cast(b[0], b[0] as u32);
            }
        }
    }
}

/// What comes before or equals a text comes before or equals everything
/// that the text comes before or equals.
pub proof fn lemma_text_le_transitive(a: Seq<char>, b: Seq<char>, c: Seq<char>)
    requires
        text_le(a, b),
        text_le(b, c),
    ensures
        text_le(a, c),
    decreases a.len(),
{
    if a.len() > 0 && b.len() > 0 && c.len() > 0 && a[0] == b[0] && b[0] == c[0] {
        lemma_text_le_transitive(a.drop_first(), b.drop_first(), c.drop_first());
    }
}

/// Two texts of which each comes before or equals the other are one text.
pub proof fn lemma_text_le_antisymmetric(a: Seq<char>, b: Seq<char>)
    requires
        text_le(a, b),
        text_le(b, a),
    ensures
        a == b,
    decreases a.len(),
{
    if a.len() > 0 && b.len() > 0 {
        lemma_text_le_antisymmetric(a.drop_first(), b.drop_first());
        assert(a =~= seq![a[0]] + a.drop_first());
        assert(b =~= seq![b[0]] + b.drop_first());
    } else {
        assert(a =~= b);
    }
}

/// `str::eq`: two strings are equal exactly when they hold the same
/// characters.
#[verifier::external_body]
pub(crate) fn same_text(a: &str, b: &str) -> (r: bool)
    ensures
        r == (a@ == b@),
{
    a == b
}

/// `str::ends_with` with a string pattern: whether `suffix` is the tail of
/// `s`.
#[verifier::external_body]
pub(crate) fn ends_with(s: &str, suffix: &str) -> (r: bool)
    ensures
        r == suffix@.is_suffix_of(s@),
{
    s.ends_with(suffix)
}

/// `str::starts_with` with a string pattern: whether `prefix` is the head of
/// `s`.
#[verifier::external_body]
pub(crate) fn starts_with(s: &str, prefix: &str) -> (r: bool)
    ensures
        r == prefix@.is_prefix_of(s@),
{
    s.starts_with(prefix)
}

/// `str::strip_suffix` with a string pattern: the text before `suffix` when
/// `s` ends with it, nothing otherwise.
#[verifier::external_body]
pub(crate) fn strip_suffix<'a>(s: &'a str, suffix: &str) -> (r: Option<&'a str>)
    ensures
        match r {
            Some(rest) => s@ == rest@ + suffix@,
            None => !suffix@.is_suffix_of(s@),
        },
{
    s.strip_suffix(suffix)
}

/// `str::strip_prefix` with a string pattern: the text after `prefix` when
/// `s` starts with it, nothing otherwise.
#[verifier::external_body]
pub(crate) fn strip_prefix<'a>(s: &'a str, prefix: &str) -> (r: Option<&'a str>)
    ensures
        match r {
            Some(rest) => s@ == prefix@ + rest@,
            None => !prefix@.is_prefix_of(s@),
        },
{
    s.strip_prefix(prefix)
}

/// `str::split_once` with a string pattern that is not empty: the text
/// before and after the first occurrence of `delimiter`, nothing when it
/// does not occur.
#[verifier::external_body]
pub(crate) fn split_once<'a>(s: &'a str, delimiter: &str) -> (r: Option<(&'a str, &'a str)>)
    requires
        delimiter@.len() > 0,
    ensures
        match r {
            Some((before, after)) => {
                &&& s@ == before@ + delimiter@ + after@
                &&& forall|i: int| 0 <= i < before@.len() ==> !occurs_at(s@, delimiter@, i)
            },
            None => forall|i: int| !occurs_at(s@, delimiter@, i),
        },
{
    s.split_once(delimiter)
}

/// `str::rsplit_once` with a string pattern that is not empty: the text
/// before and after the last occurrence of `delimiter`, nothing when it
/// does not occur.
#[verifier::external_body]
pub(crate) fn rsplit_once<'a>(s: &'a str, delimiter: &str) -> (r: Option<(&'a str, &'a str)>)
    requires
        delimiter@.len() > 0,
    ensures
        match r {
            Some((before, after)) => {
                &&& s@ == before@ + delimiter@ + after@
                &&& forall|i: int| before@.len() < i ==> !occurs_at(s@, delimiter@, i)
            },
            None => forall|i: int| !occurs_at(s@, delimiter@, i),
        },
{
    s.rsplit_once(delimiter)
}

/// The order of `str`: lexicographic by byte, which is the order of the code
/// points.
#[verifier::external_body]
pub(crate) fn text_before_or_equal(a: &str, b: &str) -> (r: bool)
    ensures
        r == text_le(a@, b@),
{
    a <= b
}

/// The text before and after the first occurrence of `delimiter` in `s`.
pub(crate) fn split_at_first<'a>(s: &'a str, delimiter: &str) -> (r: Option<(&'a str, &'a str)>)
    requires
        delimiter@.len() > 0,
    ensures
        match r {
            Some((before, after)) => {
                &&& find(s@, delimiter@) == before@.len()
                &&& before@ == s@.take(find(s@, delimiter@))
                &&& after@ == s@.skip(find(s@, delimiter@) + delimiter@.len())
            },
            None => find(s@, delimiter@) == -1,
        },
{
    proof {
        lemma_find(s@, delimiter@);
    }
    match split_once(s, delimiter) {
        Some((before, after)) => {
            proof {
                let at = before@.len() as int;
                assert(occurs_at(s@, delimiter@, at)) by {
                    assert(s@.subrange(at, at + delimiter@.len()) =~= delimiter@);
                }
                assert(s@.take(at) =~= before@);
                assert(s@.skip(at + delimiter@.len()) =~= after@);
            }
            Some((before, after))
        },
        None => None,
    }
}

} // verus!
