//! The whitespace-preserving transformer: words are converted, every
//! white-space character is copied through unchanged.

use crate::chars::{char_is_space, chars_to_string, is_space_char, str_to_chars};
use crate::convert::{convert, convert_chars};
use crate::style::CaseType;
use vstd::prelude::*;

verus! {

/// The end of the word (maximal run of non-white-space characters) that
/// begins at position `i`: the first position after `i` holding white
/// space, or the end of `t`.
pub open spec fn word_end(t: Seq<char>, i: int) -> int
    recommends
        0 <= i < t.len(),
    decreases t.len() - i,
{
    if i + 1 >= t.len() {
        t.len() as int
    } else if !is_space_char(t[i + 1]) {
        word_end(t, i + 1)
    } else {
        i + 1
    }
}

pub proof fn lemma_word_end_bounds(t: Seq<char>, i: int)
    requires
        0 <= i < t.len(),
    ensures
        i < word_end(t, i) <= t.len(),
    decreases t.len() - i,
{
    if i + 1 < t.len() && !is_space_char(t[i + 1]) {
        lemma_word_end_bounds(t, i + 1);
    }
}

/// No white space stands strictly inside a word, and the word is maximal.
pub proof fn lemma_word_end_chars(t: Seq<char>, i: int)
    requires
        0 <= i < t.len(),
    ensures
        forall|k: int| i < k < word_end(t, i) ==> !is_space_char(t[k]),
        word_end(t, i) < t.len() ==> is_space_char(t[word_end(t, i)]),
    decreases t.len() - i,
{
    lemma_word_end_bounds(t, i);
    if i + 1 < t.len() && !is_space_char(t[i + 1]) {
        lemma_word_end_chars(t, i + 1);
    }
}

/// A position with those two properties is the end of the word.
pub proof fn lemma_word_end_unique(t: Seq<char>, i: int, j: int)
    requires
        0 <= i < j <= t.len(),
        forall|k: int| i < k < j ==> !is_space_char(t[k]),
        j < t.len() ==> is_space_char(t[j]),
    ensures
        word_end(t, i) == j,
    decreases j - i,
{
    if i + 1 < t.len() && !is_space_char(t[i + 1]) {
        assert(i + 1 < j);
        lemma_word_end_unique(t, i + 1, j);
    }
}

/// The transformed text from position `i` on: each white-space character
/// is kept as it stands, each word is converted in the style.
pub open spec fn transform_from(style: CaseType, t: Seq<char>, i: int) -> Seq<char>
    decreases t.len() - i,
{
    if i < 0 || i >= t.len() {
        Seq::empty()
    } else if is_space_char(t[i]) {
        seq![t[i]] + transform_from(style, t, i + 1)
    } else {
        proof {
            lemma_word_end_bounds(t, i);
        }
        convert(style, t.subrange(i, word_end(t, i))) + transform_from(style, t, word_end(t, i))
    }
}

/// The whole text transformed in the style.
pub open spec fn transform_text(style: CaseType, t: Seq<char>) -> Seq<char> {
    transform_from(style, t, 0)
}

/// Rewrites the casing of every whitespace-delimited word of `input` in
/// the requested style, preserving each white-space character one for one.
pub fn transform_line(case_type: &CaseType, input: &str) -> (r: String)
    ensures
        r@ == transform_text(*case_type, input@),
{
    let cs = str_to_chars(input);
    let n = cs.len();
    let mut out: Vec<char> = Vec::new();
    let mut i: usize = 0;
    while i < n
        invariant
            i <= n,
            n == cs@.len(),
            cs@ == input@,
            out@ + transform_from(*case_type, input@, i as int) == transform_text(
                *case_type,
                input@,
            ),
        decreases n - i,
    {
        if char_is_space(cs[i]) {
            out.push(cs[i]);
            i += 1;
            proof {
                assert(out@ + transform_from(*case_type, input@, i as int) =~= transform_text(
                    *case_type,
                    input@,
                ));
            }
        } else {
            let ghost i0 = i as int;
            let mut j: usize = i + 1;
            while j < n && !char_is_space(cs[j])
                invariant
                    0 <= i0 < j <= n,
                    n == cs@.len(),
                    cs@ == input@,
                    forall|k: int| i0 < k < j ==> !is_space_char(input@[k]),
                decreases n - j,
            {
                j += 1;
            }
            proof {
                lemma_word_end_unique(input@, i0, j as int);
            }
            let mut word: Vec<char> = Vec::new();
            let mut k: usize = i;
            while k < j
                invariant
                    i == i0,
                    i0 <= k <= j <= n,
                    n == cs@.len(),
                    cs@ == input@,
                    word@ == input@.subrange(i0, k as int),
                decreases j - k,
            {
                word.push(cs[k]);
                k += 1;
                proof {
                    assert(word@ =~= input@.subrange(i0, k as int));
                }
            }
            let mut piece = convert_chars(*case_type, &word);
            out.append(&mut piece);
            i = j;
            proof {
                assert(out@ + transform_from(*case_type, input@, i as int) =~= transform_text(
                    *case_type,
                    input@,
                ));
            }
        }
    }
    proof {
        assert(out@ =~= transform_text(*case_type, input@));
    }
    chars_to_string(&out)
}

} // verus!
