//! Texts: their values, and searching them for a phrase.

use vstd::prelude::*;

verus! {

/// The value of a text that may be absent.
pub open spec fn optional_text(text: Option<String>) -> Option<Seq<char>> {
    match text {
        Some(value) => Some(value@),
        None => None,
    }
}

/// Whether `phrase` occurs in `text` starting at position `at`.
pub open spec fn occurs_at(text: Seq<char>, phrase: Seq<char>, at: int) -> bool {
    0 <= at && at + phrase.len() <= text.len() && text.subrange(at, at + phrase.len()) == phrase
}

/// Whether `phrase` occurs somewhere in `text`.
pub open spec fn mentions(text: Seq<char>, phrase: Seq<char>) -> bool {
    exists|at: int| occurs_at(text, phrase, at)
}

/// The characters of `text`, in order.
pub fn chars_of(text: &str) -> (chars: Vec<char>)
    ensures
        chars@ == text@,
{
    let mut chars: Vec<char> = Vec::new();
    for c in it: text.chars()
        invariant
            it.seq() == text@,
            chars@ == text@.take(it.index() as int),
    {
        chars.push(c);
        proof {
            assert(text@.take(it.index() + 1) =~= text@.take(it.index() as int).push(c));
        }
    }
    proof {
        assert(text@.take(text@.len() as int) =~= text@);
    }
    chars
}

/// Whether `phrase` stands in `text` at position `at`.
fn matches_at(text: &Vec<char>, phrase: &Vec<char>, at: usize) -> (found: bool)
    requires
        at + phrase@.len() <= text@.len(),
    ensures
        found == occurs_at(text@, phrase@, at as int),
{
    let mut k: usize = 0;
    let length: usize = text.len();
    while k < phrase.len()
        invariant
            k <= phrase@.len(),
            at + phrase@.len() <= text@.len() == length,
            forall|j: int| 0 <= j < k ==> text@[at + j] == phrase@[j],
        decreases phrase.len() - k,
    {
        if text[at + k] != phrase[k] {
            proof {
                assert(text@.subrange(at as int, at + phrase@.len())[k as int] != phrase@[k as int]);
            }
            return false;
        }
        k += 1;
    }
    proof {
        assert(text@.subrange(at as int, at + phrase@.len()) =~= phrase@);
    }
    true
}

/// Whether `phrase` occurs somewhere in `text`. The empty phrase occurs in
/// every text.
pub fn contains_text(text: &str, phrase: &str) -> (found: bool)
    ensures
        found == mentions(text@, phrase@),
{
    let hay = chars_of(text);
    let needle = chars_of(phrase);
    if needle.len() > hay.len() {
        return false;
    }
    let last: usize = hay.len() - needle.len();
    let mut at: usize = 0;
    loop
        invariant
            hay@ == text@,
            needle@ == phrase@,
            last == hay@.len() - needle@.len(),
            at <= last,
            forall|k: int| 0 <= k < at ==> !occurs_at(text@, phrase@, k),
        decreases last - at,
    {
        if matches_at(&hay, &needle, at) {
            return true;
        }
        if at == last {
            return false;
        }
        at += 1;
    }
}

/// Whether `text` ends in `suffix`.
pub open spec fn ends_with(text: Seq<char>, suffix: Seq<char>) -> bool {
    suffix.len() <= text.len() && text.subrange(text.len() - suffix.len(), text.len() as int)
        == suffix
}

/// Whether `text` ends in `suffix`. Every text ends in the empty one.
pub fn text_ends_with(text: &str, suffix: &str) -> (found: bool)
    ensures
        found == ends_with(text@, suffix@),
{
    let hay = chars_of(text);
    let needle = chars_of(suffix);
    if needle.len() > hay.len() {
        return false;
    }
    matches_at(&hay, &needle, hay.len() - needle.len())
}

/// Whether two texts are the same.
pub fn same_text(left: &str, right: &str) -> (same: bool)
    ensures
        same == (left@ == right@),
{
    let a = chars_of(left);
    let b = chars_of(right);
    if a.len() != b.len() {
        return false;
    }
    let same = matches_at(&a, &b, 0);
    proof {
        assert(a@.subrange(0, a@.len() as int) =~= a@);
    }
    same
}

/// The lower-case form of `text`, as the standard library computes it.
pub uninterp spec fn lowercase(text: Seq<char>) -> Seq<char>;

/// `str::to_lowercase`: the result is the lower-case form of `text`.
#[verifier::external_body]
pub(crate) fn to_lowercase(text: &str) -> (lowered: String)
    ensures
        lowered@ == lowercase(text@),
{
    text.to_lowercase()
}

/// Whether `phrase` occurs in `text` once `text` is put in lower case.
/// `phrase` itself is taken as it is.
pub fn contains_ignoring_case(text: &str, phrase: &str) -> (found: bool)
    ensures
        found == mentions(lowercase(text@), phrase@),
{
    let lowered = to_lowercase(text);
    contains_text(lowered.as_str(), phrase)
}

} // verus!
