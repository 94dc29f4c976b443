//! Paths, as far as two spellings of one are told apart.
//!
//! Two paths are the same when their components are: repeated and trailing
//! slashes say nothing, and neither does a `.`, unless the path begins with it.

use crate::text;
use vstd::prelude::*;
use vstd::string::*;

verus! {

/// Where a path starts from.
#[derive(Clone, Copy, Debug, PartialEq, Eq, Structural)]
pub enum Anchor {
    /// The root.
    Root,
    /// The current directory, named by a leading `.`.
    Here,
    /// The current directory, not named.
    Unsaid,
}

/// The components of a path.
#[verifier::ext_equal]
pub struct Outline {
    pub anchor: Anchor,
    pub parts: Seq<Seq<char>>,
}

/// Where a path starts from.
pub open spec fn anchor_of(path: Seq<char>) -> Anchor {
    if path.len() > 0 && path[0] == '/' {
        Anchor::Root
    } else if path.len() > 0 && path[0] == '.' && (path.len() == 1 || path[1] == '/') {
        Anchor::Here
    } else {
        Anchor::Unsaid
    }
}

/// The parts with one more, if it says anything.
pub open spec fn with_part(parts: Seq<Seq<char>>, part: Seq<char>) -> Seq<Seq<char>> {
    if part.len() == 0 || part == seq!['.'] {
        parts
    } else {
        parts.push(part)
    }
}

/// The parts of a path up to its last slash, and what follows it.
pub open spec fn scanned(path: Seq<char>) -> (Seq<Seq<char>>, Seq<char>)
    decreases path.len(),
{
    if path.len() == 0 {
        (Seq::empty(), Seq::empty())
    } else {
        let (parts, part) = scanned(path.drop_last());
        if path.last() == '/' {
            (with_part(parts, part), Seq::empty())
        } else {
            (parts, part.push(path.last()))
        }
    }
}

/// The parts of a path that say anything.
pub open spec fn parts_of(path: Seq<char>) -> Seq<Seq<char>> {
    with_part(scanned(path).0, scanned(path).1)
}

/// The components of a path.
pub open spec fn outline(path: Seq<char>) -> Outline {
    Outline { anchor: anchor_of(path), parts: parts_of(path) }
}

/// Whether two texts spell one path.
pub open spec fn is_same(a: Seq<char>, b: Seq<char>) -> bool {
    outline(a) == outline(b)
}

/// The name a path ends in. A path that ends at a root or a parent has none.
pub open spec fn name_of(path: Seq<char>) -> Option<Seq<char>> {
    let parts = parts_of(path);
    if parts.len() == 0 || parts.last() == seq!['.', '.'] {
        None
    } else {
        Some(parts.last())
    }
}

/// Where the last dot of a name stands; before its beginning when it has none.
pub open spec fn last_dot(name: Seq<char>) -> int
    decreases name.len(),
{
    if name.len() == 0 {
        -1
    } else if name.last() == '.' {
        name.len() - 1
    } else {
        last_dot(name.drop_last())
    }
}

/// What follows the last dot of the name a path ends in. A name that only begins
/// with a dot has no extension.
pub open spec fn extension_of(path: Seq<char>) -> Option<Seq<char>> {
    match name_of(path) {
        Some(name) if last_dot(name) > 0 => Some(
            name.subrange(last_dot(name) + 1, name.len() as int),
        ),
        _ => None,
    }
}

fn anchor(letters: &Vec<char>) -> (anchor: Anchor)
    ensures
        anchor == anchor_of(letters@),
{
    if letters.len() > 0 && letters[0] == '/' {
        Anchor::Root
    } else if letters.len() > 0 && letters[0] == '.' && (letters.len() == 1 || letters[1] == '/') {
        Anchor::Here
    } else {
        Anchor::Unsaid
    }
}

/// Adds what stands between two places of a path to its parts, if it says
/// anything.
fn add_part(parts: &mut Vec<String>, path: &str, letters: &Vec<char>, from: usize, to: usize)
    requires
        letters@ == path@,
        from <= to <= letters.len(),
    ensures
        final(parts).deep_view() == with_part(
            old(parts).deep_view(),
            path@.subrange(from as int, to as int),
        ),
{
    let ghost part = path@.subrange(from as int, to as int);
    if to == from {
        return;
    }
    if to - from == 1 && letters[from] == '.' {
        assert(part =~= seq!['.']);
        return;
    }
    proof {
        if part == seq!['.'] {
            assert(part.len() == 1 && part[0] == '.');
        }
    }
    parts.push(text::slice(path, from, to));
    assert(parts.deep_view() =~= old(parts).deep_view().push(part));
}

fn parts(path: &str) -> (parts: Vec<String>)
    ensures
        parts.deep_view() == parts_of(path@),
{
    let letters = text::characters(path);
    let mut parts: Vec<String> = Vec::new();
    let mut from: usize = 0;
    let mut k: usize = 0;
    assert(parts.deep_view() =~= Seq::<Seq<char>>::empty());
    assert(path@.subrange(0, 0) =~= Seq::<char>::empty());
    while k < letters.len()
        invariant
            from <= k <= letters.len(),
            letters@ == path@,
            scanned(path@.take(k as int)) == (
                parts.deep_view(),
                path@.subrange(from as int, k as int),
            ),
        decreases letters.len() - k,
    {
        proof {
            let longer = path@.take(k + 1);
            assert(longer.drop_last() =~= path@.take(k as int));
            assert(longer.last() == path@[k as int]);
            assert(path@.subrange(from as int, k as int).push(path@[k as int])
                =~= path@.subrange(from as int, k + 1));
            assert(path@.subrange(k + 1, k + 1) =~= Seq::<char>::empty());
        }
        if letters[k] == '/' {
            add_part(&mut parts, path, &letters, from, k);
            from = k + 1;
        }
        k = k + 1;
    }
    assert(path@.take(k as int) =~= path@);
    add_part(&mut parts, path, &letters, from, k);
    parts
}

/// Whether two texts spell one path.
pub fn same_path(a: &str, b: &str) -> (same: bool)
    ensures
        same == is_same(a@, b@),
{
    if anchor(&text::characters(a)) != anchor(&text::characters(b)) {
        return false;
    }
    let (left, right) = (parts(a), parts(b));
    if left.len() != right.len() {
        assert(left.deep_view().len() != right.deep_view().len());
        return false;
    }
    let mut k: usize = 0;
    while k < left.len()
        invariant
            k <= left.len(),
            left.len() == right.len(),
            left.deep_view() == parts_of(a@),
            right.deep_view() == parts_of(b@),
            forall|m: int| 0 <= m < k ==> (#[trigger] left.deep_view()[m]) == right.deep_view()[m],
        decreases left.len() - k,
    {
        assert(left.deep_view()[k as int] == left[k as int]@);
        assert(right.deep_view()[k as int] == right[k as int]@);
        if !text::same_text(left[k].as_str(), right[k].as_str()) {
            return false;
        }
        k = k + 1;
    }
    assert(left.deep_view() =~= right.deep_view());
    true
}

/// The name a path ends in.
pub fn file_name(path: &str) -> (name: Option<String>)
    ensures
        text::opt(name) == name_of(path@),
{
    let mut parts = parts(path);
    assert(parts.deep_view().len() == parts.len());
    match parts.pop() {
        None => None,
        Some(name) => {
            assert(parts_of(path@).last() == name@);
            proof {
                reveal_strlit("..");
                assert(".."@ =~= seq!['.', '.']);
            }
            if text::same_text(name.as_str(), "..") {
                None
            } else {
                Some(name)
            }
        },
    }
}

/// What follows the last dot of the name a path ends in.
pub fn extension(path: &str) -> (extension: Option<String>)
    ensures
        text::opt(extension) == extension_of(path@),
{
    let name = match file_name(path) {
        Some(name) => name,
        None => {
            return None;
        },
    };
    let letters = text::characters(name.as_str());
    let mut at: usize = letters.len();
    assert(name@.take(at as int) =~= name@);
    while at > 0 && letters[at - 1] != '.'
        invariant
            at <= letters.len(),
            letters@ == name@,
            last_dot(name@) == last_dot(name@.take(at as int)),
        decreases at,
    {
        assert(name@.take(at as int).drop_last() =~= name@.take(at - 1));
        at = at - 1;
    }
    if at > 1 {
        Some(text::slice(name.as_str(), at, letters.len()))
    } else {
        None
    }
}

/// A slash behind a path says nothing.
pub proof fn law_a_trailing_slash_says_nothing(path: Seq<char>)
    requires
        path.len() > 0,
    ensures
        is_same(path.push('/'), path),
{
    assert(path.push('/').drop_last() =~= path);
}

/// A second slash in a row says nothing.
pub proof fn law_a_second_slash_says_nothing(before: Seq<char>, after: Seq<char>)
    ensures
        is_same(before + "//"@ + after, before + "/"@ + after),
{
    reveal_strlit("//");
    reveal_strlit("/");
    let (twice, once) = (before + "//"@ + after, before + "/"@ + after);
    lemma_second_slash(before, after);
    if before.len() == 1 {
        assert(twice[0] == before[0] && once[0] == before[0]);
        assert(twice[1] == '/' && once[1] == '/');
    } else if before.len() >= 2 {
        assert(twice[0] == before[0] && once[0] == before[0]);
        assert(twice[1] == before[1] && once[1] == before[1]);
    }
}

proof fn lemma_second_slash(before: Seq<char>, after: Seq<char>)
    ensures
        scanned(before + "//"@ + after) == scanned(before + "/"@ + after),
    decreases after.len(),
{
    reveal_strlit("//");
    reveal_strlit("/");
    let (twice, once) = (before + "//"@ + after, before + "/"@ + after);
    if after.len() == 0 {
        assert(once.drop_last() =~= before);
        assert(twice.drop_last() =~= once);
        assert(twice.last() == '/' && once.last() == '/');
    } else {
        lemma_second_slash(before, after.drop_last());
        assert(twice.drop_last() =~= before + "//"@ + after.drop_last());
        assert(once.drop_last() =~= before + "/"@ + after.drop_last());
    }
}

} // verus!
