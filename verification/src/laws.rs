//! The laws of the transformer: the whitespace invariant, the behaviour on
//! empty and all-white-space texts.

use crate::chars::{capitalized, is_delim_char, is_space_char, lower_char, lowered, uppered};
use crate::convert::{convert, render_rest, rest_piece, styled_first};
use crate::segment::{lemma_split_from_wf, parts_wf, split_text};
use crate::style::CaseType;
use crate::transform::{
    lemma_word_end_bounds, lemma_word_end_chars, transform_from, transform_text, word_end,
};
use vstd::prelude::*;

verus! {

/// The white-space characters of a text, in order.
pub open spec fn space_chars(t: Seq<char>) -> Seq<char>
    decreases t.len(),
{
    if t.len() == 0 {
        Seq::empty()
    } else if is_space_char(t[0]) {
        seq![t[0]] + space_chars(t.skip(1))
    } else {
        space_chars(t.skip(1))
    }
}

/// No character of `s` is white space.
pub open spec fn no_space(s: Seq<char>) -> bool {
    forall|i: int| 0 <= i < s.len() ==> !is_space_char(#[trigger] s[i])
}

/// The white-space characters of a concatenation are those of its halves.
proof fn lemma_space_chars_add(a: Seq<char>, b: Seq<char>)
    ensures
        space_chars(a + b) == space_chars(a) + space_chars(b),
    decreases a.len(),
{
    if a.len() == 0 {
        assert(a + b =~= b);
        assert(space_chars(a) + space_chars(b) =~= space_chars(b));
    } else {
        assert((a + b).skip(1) =~= a.skip(1) + b);
        assert((a + b)[0] == a[0]);
        lemma_space_chars_add(a.skip(1), b);
        if is_space_char(a[0]) {
            assert(space_chars(a + b) =~= space_chars(a) + space_chars(b));
        }
    }
}

proof fn lemma_no_space_chars_empty(s: Seq<char>)
    requires
        no_space(s),
    ensures
        space_chars(s) == Seq::<char>::empty(),
    decreases s.len(),
{
    if s.len() > 0 {
        assert(forall|i: int| 0 <= i < s.skip(1).len() ==> s.skip(1)[i] == s[i + 1]);
        lemma_no_space_chars_empty(s.skip(1));
    }
}

proof fn lemma_styled_part_no_space(style: CaseType, p: Seq<char>)
    requires
        forall|j: int| 0 <= j < p.len() ==> !is_delim_char(#[trigger] p[j]),
    ensures
        no_space(styled_first(style, p)),
        no_space(rest_piece(style, p)),
{
    assert forall|i: int| 0 <= i < lowered(p).len() implies !is_space_char(
        #[trigger] lowered(p)[i],
    ) by {
        assert(!is_delim_char(p[i]));
    }
    assert forall|i: int| 0 <= i < uppered(p).len() implies !is_space_char(
        #[trigger] uppered(p)[i],
    ) by {
        assert(!is_delim_char(p[i]));
    }
    assert forall|i: int| 0 <= i < capitalized(p).len() implies !is_space_char(
        #[trigger] capitalized(p)[i],
    ) by {
        if i == 0 {
            assert(!is_delim_char(p[0]));
        } else {
            assert(capitalized(p)[i] == lower_char(p.skip(1)[i - 1]));
            assert(!is_delim_char(p[i]));
        }
    }
}

proof fn lemma_render_rest_no_space(style: CaseType, ps: Seq<Seq<char>>)
    requires
        parts_wf(ps),
    ensures
        no_space(render_rest(style, ps)),
    decreases ps.len(),
{
    if ps.len() > 0 {
        lemma_styled_part_no_space(style, ps[0]);
        assert(parts_wf(ps.skip(1))) by {
            assert(forall|k: int| 0 <= k < ps.skip(1).len() ==> ps.skip(1)[k] == ps[k + 1]);
        }
        lemma_render_rest_no_space(style, ps.skip(1));
    }
}

/// A converted word holds no white-space character at all.
pub proof fn lemma_convert_no_space(style: CaseType, t: Seq<char>)
    ensures
        no_space(convert(style, t)),
{
    lemma_split_from_wf(t, 0);
    let ps = split_text(t);
    if ps.len() > 0 {
        lemma_styled_part_no_space(style, ps[0]);
        assert(parts_wf(ps.skip(1))) by {
            assert(forall|k: int| 0 <= k < ps.skip(1).len() ==> ps.skip(1)[k] == ps[k + 1]);
        }
        lemma_render_rest_no_space(style, ps.skip(1));
    }
}

proof fn lemma_transform_from_spaces(style: CaseType, t: Seq<char>, i: int)
    requires
        0 <= i <= t.len(),
    ensures
        space_chars(transform_from(style, t, i)) == space_chars(t.skip(i)),
    decreases t.len() - i,
{
    if i >= t.len() {
        assert(t.skip(i) =~= Seq::<char>::empty());
    } else if is_space_char(t[i]) {
        lemma_transform_from_spaces(style, t, i + 1);
        lemma_space_chars_add(seq![t[i]], transform_from(style, t, i + 1));
        lemma_space_chars_add(seq![t[i]], t.skip(i + 1));
        assert(t.skip(i) =~= seq![t[i]] + t.skip(i + 1));
    } else {
        let j = word_end(t, i);
        lemma_word_end_bounds(t, i);
        lemma_word_end_chars(t, i);
        lemma_transform_from_spaces(style, t, j);
        let w = t.subrange(i, j);
        let cw = convert(style, w);
        lemma_convert_no_space(style, w);
        lemma_no_space_chars_empty(cw);
        lemma_space_chars_add(cw, transform_from(style, t, j));
        assert(forall|k: int| 0 <= k < w.len() ==> !is_space_char(#[trigger] w[k]));
        lemma_no_space_chars_empty(w);
        lemma_space_chars_add(w, t.skip(j));
        assert(t.skip(i) =~= w + t.skip(j));
        assert(space_chars(transform_from(style, t, i)) =~= space_chars(t.skip(i)));
    }
}

/// Whitespace invariant: for every text and every style, the transformed
/// text holds exactly the white-space characters of the input, in number
/// and order; only the words between them are rewritten.
pub proof fn lemma_whitespace_preserved(style: CaseType, t: Seq<char>)
    ensures
        space_chars(transform_text(style, t)) == space_chars(t),
{
    lemma_transform_from_spaces(style, t, 0);
    assert(t.skip(0) =~= t);
}

/// An empty text transforms to an empty text, for every style.
pub proof fn lemma_transform_empty(style: CaseType)
    ensures
        transform_text(style, Seq::<char>::empty()) == Seq::<char>::empty(),
{
}

proof fn lemma_transform_from_all_space(style: CaseType, t: Seq<char>, i: int)
    requires
        0 <= i <= t.len(),
        forall|k: int| 0 <= k < t.len() ==> is_space_char(#[trigger] t[k]),
    ensures
        transform_from(style, t, i) == t.skip(i),
    decreases t.len() - i,
{
    if i >= t.len() {
        assert(t.skip(i) =~= Seq::<char>::empty());
    } else {
        lemma_transform_from_all_space(style, t, i + 1);
        assert(t.skip(i) =~= seq![t[i]] + t.skip(i + 1));
    }
}

/// A text of white space alone passes through unchanged, for every style.
pub proof fn lemma_all_space_unchanged(style: CaseType, t: Seq<char>)
    requires
        forall|k: int| 0 <= k < t.len() ==> is_space_char(#[trigger] t[k]),
    ensures
        transform_text(style, t) == t,
{
    lemma_transform_from_all_space(style, t, 0);
    assert(t.skip(0) =~= t);
}

} // verus!
