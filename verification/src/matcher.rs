//! Keyword matcher: case-insensitive whole-word search. A keyword matches
//! only where both of its ends sit on a word boundary, so `cat` does not
//! match inside `category`. Keywords are matched literally, character by
//! character, each character folded through the Unicode lower-casing the
//! text utilities name.

use vstd::prelude::*;
use crate::text;

verus! {

/// The case fold of one character: its Unicode lower-case form (possibly
/// more than one character). Two characters are equal up to case exactly
/// when their folds are equal.
pub open spec fn char_fold(c: char) -> Seq<char> {
    text::lower_of(seq![c])
}

/// Whether position `i` of the text holds a word character. Positions
/// outside the text count as non-word.
pub open spec fn word_at(t: Seq<char>, i: int) -> bool {
    0 <= i < t.len() && text::is_word_char(t[i])
}

/// A word boundary between positions `i - 1` and `i`: exactly one of the
/// two neighbouring positions holds a word character.
pub open spec fn boundary(t: Seq<char>, i: int) -> bool {
    word_at(t, i - 1) != word_at(t, i)
}

/// The keyword occurs at position `i` of the text, character by character
/// up to case, with word boundaries on both sides.
pub open spec fn match_at(t: Seq<char>, kw: Seq<char>, i: int) -> bool {
    &&& 0 <= i
    &&& i + kw.len() <= t.len()
    &&& forall|j: int| 0 <= j < kw.len() ==> char_fold(t[i + j]) == char_fold(#[trigger] kw[j])
    &&& boundary(t, i)
    &&& boundary(t, i + kw.len())
}

/// The keyword occurs somewhere in the text as a whole word.
pub open spec fn matches_keyword(t: Seq<char>, kw: Seq<char>) -> bool {
    exists|i: int| match_at(t, kw, i)
}

/// Some keyword of the list occurs in the text as a whole word.
pub open spec fn matches_any(t: Seq<char>, kws: Seq<Seq<char>>) -> bool {
    exists|k: int| 0 <= k < kws.len() && matches_keyword(t, kws[k])
}

/// The fold of every character, one folded string per character.
fn fold_each(v: &Vec<char>) -> (r: Vec<String>)
    ensures
        r@.len() == v@.len(),
        forall|m: int| 0 <= m < v@.len() ==> r@[m]@ == char_fold(#[trigger] v@[m]),
{
    let mut r: Vec<String> = Vec::new();
    let mut i: usize = 0;
    while i < v.len()
        invariant
            i <= v@.len(),
            r@.len() == i,
            forall|m: int| 0 <= m < i ==> r@[m]@ == char_fold(#[trigger] v@[m]),
        decreases v@.len() - i,
    {
        r.push(text::char_lower(v[i]));
        i = i + 1;
    }
    r
}

fn boundary_at(t: &Vec<char>, i: usize) -> (r: bool)
    requires
        i <= t@.len(),
    ensures
        r == boundary(t@, i as int),
{
    let left = i > 0 && text::is_word_char_exec(t[i - 1]);
    let right = i < t.len() && text::is_word_char_exec(t[i]);
    left != right
}

fn match_at_exec(
    t: &Vec<char>,
    kw: &Vec<char>,
    tf: &Vec<String>,
    kf: &Vec<String>,
    i: usize,
) -> (r: bool)
    requires
        i + kw.len() <= t.len(),
        tf.len() == t.len(),
        kf.len() == kw.len(),
        forall|m: int| 0 <= m < t@.len() ==> tf@[m]@ == char_fold(#[trigger] t@[m]),
        forall|m: int| 0 <= m < kw@.len() ==> kf@[m]@ == char_fold(#[trigger] kw@[m]),
    ensures
        r == match_at(t@, kw@, i as int),
{
    if !boundary_at(t, i) {
        return false;
    }
    if !boundary_at(t, i + kw.len()) {
        return false;
    }
    let mut j: usize = 0;
    while j < kw.len()
        invariant
            i + kw.len() <= t.len(),
            tf.len() == t.len(),
            kf.len() == kw.len(),
            forall|m: int| 0 <= m < t@.len() ==> tf@[m]@ == char_fold(#[trigger] t@[m]),
            forall|m: int| 0 <= m < kw@.len() ==> kf@[m]@ == char_fold(#[trigger] kw@[m]),
            j <= kw@.len(),
            forall|m: int|
                0 <= m < j ==> char_fold(t@[i + m]) == char_fold(#[trigger] kw@[m]),
        decreases kw@.len() - j,
    {
        if tf[i + j] != kf[j] {
            proof {
                assert(char_fold(t@[i + j]) != char_fold(kw@[j as int]));
            }
            return false;
        }
        j = j + 1;
    }
    true
}

/// Whether the keyword occurs in the text as a case-folded whole word.
pub fn text_matches_keyword(t: &Vec<char>, kw: &Vec<char>) -> (r: bool)
    ensures
        r == matches_keyword(t@, kw@),
{
    if kw.len() > t.len() {
        proof {
            assert(forall|i: int| !match_at(t@, kw@, i));
        }
        return false;
    }
    let tf = fold_each(t);
    let kf = fold_each(kw);
    let last = t.len() - kw.len();
    let mut i: usize = 0;
    loop
        invariant
            kw.len() <= t.len(),
            tf.len() == t.len(),
            kf.len() == kw.len(),
            forall|m: int| 0 <= m < t@.len() ==> tf@[m]@ == char_fold(#[trigger] t@[m]),
            forall|m: int| 0 <= m < kw@.len() ==> kf@[m]@ == char_fold(#[trigger] kw@[m]),
            last == t.len() - kw.len(),
            i <= last,
            forall|j: int| 0 <= j < i ==> !match_at(t@, kw@, j),
        decreases last - i,
    {
        if match_at_exec(t, kw, &tf, &kf, i) {
            proof {
                assert(match_at(t@, kw@, i as int));
            }
            return true;
        }
        if i == last {
            proof {
                assert(forall|j: int| !match_at(t@, kw@, j));
            }
            return false;
        }
        i = i + 1;
    }
}

/// Whether any of the keywords occurs in the text as a whole word. With no
/// keywords configured, nothing matches.
pub fn text_matches_any(t: &Vec<char>, keywords: &Vec<String>) -> (r: bool)
    ensures
        r == matches_any(t@, keywords.deep_view()),
{
    let mut k: usize = 0;
    while k < keywords.len()
        invariant
            keywords.deep_view().len() == keywords@.len(),
            forall|j: int|
                0 <= j < keywords@.len() ==> keywords.deep_view()[j] == keywords@[j]@,
            k <= keywords@.len(),
            forall|j: int| 0 <= j < k ==> !matches_keyword(t@, keywords.deep_view()[j]),
        decreases keywords@.len() - k,
    {
        let kw = text::chars_of(keywords[k].as_str());
        if text_matches_keyword(t, &kw) {
            proof {
                assert(matches_keyword(t@, keywords.deep_view()[k as int]));
            }
            return true;
        }
        k = k + 1;
    }
    false
}

/// Whether the text matches any configured keyword; the string-level entry
/// point of the matcher.
pub fn keyword_match(txt: &str, keywords: &Vec<String>) -> (r: bool)
    ensures
        r == matches_any(txt@, keywords.deep_view()),
{
    let t = text::chars_of(txt);
    text_matches_any(&t, keywords)
}

/// Matching is insensitive to keyword case: two keywords whose characters
/// fold alike, position by position, match exactly the same texts.
pub proof fn lemma_keyword_fold_insensitive(t: Seq<char>, kw: Seq<char>, kw2: Seq<char>)
    requires
        kw.len() == kw2.len(),
        forall|j: int| 0 <= j < kw.len() ==> char_fold(kw[j]) == char_fold(#[trigger] kw2[j]),
    ensures
        matches_keyword(t, kw) == matches_keyword(t, kw2),
{
    assert forall|i: int| match_at(t, kw, i) == match_at(t, kw2, i) by {
        if match_at(t, kw, i) {
            assert forall|j: int|
                0 <= j < kw2.len() implies char_fold(t[i + j]) == char_fold(
                #[trigger] kw2[j],
            ) by {
                assert(char_fold(t[i + j]) == char_fold(kw[j]));
                assert(char_fold(kw[j]) == char_fold(kw2[j]));
            }
            assert(match_at(t, kw2, i));
        }
        if match_at(t, kw2, i) {
            assert forall|j: int|
                0 <= j < kw.len() implies char_fold(t[i + j]) == char_fold(
                #[trigger] kw[j],
            ) by {
                assert(char_fold(kw[j]) == char_fold(kw2[j]));
                assert(char_fold(t[i + j]) == char_fold(kw2[j]));
            }
            assert(match_at(t, kw, i));
        }
    }
    if matches_keyword(t, kw) {
        let i = choose|i: int| match_at(t, kw, i);
        assert(match_at(t, kw2, i));
    }
    if matches_keyword(t, kw2) {
        let i = choose|i: int| match_at(t, kw2, i);
        assert(match_at(t, kw, i));
    }
}

} // verus!
