//! Sub-word segmentation: a word is re-split at explicit delimiters and at
//! capitalization transitions, so that a word already written in one style
//! can be re-joined in another.

use crate::chars::{char_is_delim, char_is_upper, is_delim_char, is_upper_char};
use vstd::prelude::*;

verus! {

/// Position `j` continues the sub-word run that is open just before it:
/// `t[j]` is no delimiter and does not open a new sub-word (it is not a
/// capital that follows a non-capital).
pub open spec fn continues_at(t: Seq<char>, j: int) -> bool
    recommends
        1 <= j < t.len(),
{
    &&& !is_delim_char(t[j])
    &&& !(is_upper_char(t[j]) && !is_upper_char(t[j - 1]))
}

/// The end of the sub-word run that begins at position `i`: the first
/// position after `i` that does not continue the run, or the end of `t`.
pub open spec fn run_end(t: Seq<char>, i: int) -> int
    recommends
        0 <= i < t.len(),
    decreases t.len() - i,
{
    if i + 1 >= t.len() {
        t.len() as int
    } else if continues_at(t, i + 1) {
        run_end(t, i + 1)
    } else {
        i + 1
    }
}

pub proof fn lemma_run_end_bounds(t: Seq<char>, i: int)
    requires
        0 <= i < t.len(),
    ensures
        i < run_end(t, i) <= t.len(),
    decreases t.len() - i,
{
    if i + 1 < t.len() && continues_at(t, i + 1) {
        lemma_run_end_bounds(t, i + 1);
    }
}

/// Every position strictly inside a run continues it, and the run is
/// maximal: the position right after it, if any, does not continue it.
pub proof fn lemma_run_end_chars(t: Seq<char>, i: int)
    requires
        0 <= i < t.len(),
    ensures
        forall|k: int| i < k < run_end(t, i) ==> continues_at(t, k),
        run_end(t, i) < t.len() ==> !continues_at(t, run_end(t, i)),
    decreases t.len() - i,
{
    lemma_run_end_bounds(t, i);
    if i + 1 < t.len() && continues_at(t, i + 1) {
        lemma_run_end_chars(t, i + 1);
    }
}

/// A position with those two properties is the end of the run.
pub proof fn lemma_run_end_unique(t: Seq<char>, i: int, j: int)
    requires
        0 <= i < j <= t.len(),
        forall|k: int| i < k < j ==> continues_at(t, k),
        j < t.len() ==> !continues_at(t, j),
    ensures
        run_end(t, i) == j,
    decreases j - i,
{
    if i + 1 < t.len() && continues_at(t, i + 1) {
        assert(i + 1 < j);
        lemma_run_end_unique(t, i + 1, j);
    }
}

/// The sub-words of `t` from position `i` on: delimiters are dropped, and
/// each maximal run without an internal boundary is one sub-word.
pub open spec fn split_from(t: Seq<char>, i: int) -> Seq<Seq<char>>
    decreases t.len() - i,
{
    if i < 0 || i >= t.len() {
        Seq::empty()
    } else if is_delim_char(t[i]) {
        split_from(t, i + 1)
    } else {
        proof {
            lemma_run_end_bounds(t, i);
        }
        seq![t.subrange(i, run_end(t, i))] + split_from(t, run_end(t, i))
    }
}

/// The sub-words of a whole word (or text): non-empty runs between
/// delimiters and capitalization boundaries.
pub open spec fn split_text(t: Seq<char>) -> Seq<Seq<char>> {
    split_from(t, 0)
}

/// Each sub-word that splitting yields is non-empty and free of delimiter
/// characters.
pub open spec fn parts_wf(ps: Seq<Seq<char>>) -> bool {
    forall|k: int|
        0 <= k < ps.len() ==> #[trigger] ps[k].len() > 0 && forall|j: int|
            0 <= j < ps[k].len() ==> !is_delim_char(#[trigger] ps[k][j])
}

pub proof fn lemma_split_from_wf(t: Seq<char>, i: int)
    ensures
        parts_wf(split_from(t, i)),
    decreases t.len() - i,
{
    if i < 0 || i >= t.len() {
    } else if is_delim_char(t[i]) {
        lemma_split_from_wf(t, i + 1);
    } else {
        lemma_run_end_bounds(t, i);
        lemma_run_end_chars(t, i);
        let e = run_end(t, i);
        let p = t.subrange(i, e);
        assert(forall|j: int| 0 <= j < p.len() ==> !is_delim_char(p[j])) by {
            assert(forall|j: int| 1 <= j < p.len() ==> continues_at(t, i + j) && p[j] == t[i + j]);
        }
        lemma_split_from_wf(t, e);
        let rest = split_from(t, e);
        assert(forall|k: int|
            0 <= k < rest.len() ==> (seq![p] + rest)[k + 1] == #[trigger] rest[k]);
    }
}

/// Whether the already collected characters at position `j` of `w`
/// continue the current sub-word run.
fn continues_exec(w: &Vec<char>, j: usize) -> (b: bool)
    requires
        1 <= j < w@.len(),
    ensures
        b == continues_at(w@, j as int),
{
    !char_is_delim(w[j]) && !(char_is_upper(w[j]) && !char_is_upper(w[j - 1]))
}

/// Splits a word into its sub-words.
pub fn split_chars(w: &Vec<char>) -> (parts: Vec<Vec<char>>)
    ensures
        parts.deep_view() == split_text(w@),
{
    let n = w.len();
    let mut parts: Vec<Vec<char>> = Vec::new();
    let mut i: usize = 0;
    while i < n
        invariant
            i <= n,
            n == w@.len(),
            parts.deep_view() + split_from(w@, i as int) == split_text(w@),
        decreases n - i,
    {
        if char_is_delim(w[i]) {
            i += 1;
        } else {
            let ghost i0 = i as int;
            let mut j: usize = i + 1;
            while j < n && continues_exec(w, j)
                invariant
                    0 <= i0 < j <= n,
                    n == w@.len(),
                    forall|k: int| i0 < k < j ==> continues_at(w@, k),
                decreases n - j,
            {
                j += 1;
            }
            proof {
                lemma_run_end_unique(w@, i0, j as int);
            }
            let mut part: Vec<char> = Vec::new();
            let mut k: usize = i;
            while k < j
                invariant
                    i <= k <= j <= n,
                    n == w@.len(),
                    i == i0,
                    part@ == w@.subrange(i0, k as int),
                decreases j - k,
            {
                part.push(w[k]);
                k += 1;
                proof {
                    assert(part@ =~= w@.subrange(i0, k as int));
                }
            }
            let ghost old_parts = parts.deep_view();
            parts.push(part);
            proof {
                assert(parts.deep_view() =~~= old_parts + seq![part@]);
                assert(old_parts + seq![part@] + split_from(w@, j as int) =~~= old_parts + (
                seq![part@] + split_from(w@, j as int)));
            }
            i = j;
        }
    }
    parts
}

} // verus!
