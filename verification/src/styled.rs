//! What it means for a single word to be written in a style already, and
//! the proof that such a word is a fixed point of the conversion: applying
//! the style a second time changes nothing.

use crate::chars::{
    capitalized, is_ascii_lower_char, is_delim_char, is_upper_char, lower_char, lowered, uppered,
};
use crate::convert::{convert, render_rest, rest_piece, separator, styled_first, styled_part};
use crate::segment::{
    continues_at, lemma_run_end_bounds, lemma_run_end_chars, run_end, split_from,
};
use crate::style::CaseType;
use vstd::prelude::*;

verus! {

/// Whether `c` may stand inside a sub-word of a word already written in
/// the style: no delimiter, and fixed by the style's case map (so Snake
/// and Kebab admit no capitals, ScreamingSnake no small letters).
pub open spec fn plain_char_ok(style: CaseType, c: char) -> bool {
    match style {
        CaseType::Pascal => !is_delim_char(c),
        CaseType::Camel => !is_delim_char(c),
        CaseType::Snake => !is_delim_char(c) && !is_upper_char(c),
        CaseType::Kebab => !is_delim_char(c) && !is_upper_char(c),
        CaseType::ScreamingSnake => !is_delim_char(c) && !is_ascii_lower_char(c),
    }
}

/// A single word correctly written in the style, with no foreign or mixed
/// delimiters. For the separator styles: sub-words of admissible
/// characters joined by single separators, none leading or trailing, and
/// no capitalization transition inside a sub-word. For Pascal and Camel:
/// no delimiters at all, no two adjacent capitals (each capital opens one
/// sub-word), and a first character that is a capital exactly for Pascal.
pub open spec fn is_styled(style: CaseType, w: Seq<char>) -> bool {
    match separator(style) {
        Some(sep) => {
            &&& forall|j: int|
                0 <= j < w.len() ==> (#[trigger] w[j] == sep || plain_char_ok(style, w[j]))
            &&& w.len() > 0 ==> w[0] != sep && w[w.len() - 1] != sep
            &&& forall|j: int| 1 <= j < w.len() ==> !(#[trigger] w[j] == sep && w[j - 1] == sep)
            &&& forall|j: int|
                1 <= j < w.len() && #[trigger] w[j] != sep && w[j - 1] != sep ==> !(is_upper_char(
                    w[j],
                ) && !is_upper_char(w[j - 1]))
        },
        None => {
            &&& forall|j: int| 0 <= j < w.len() ==> plain_char_ok(style, #[trigger] w[j])
            &&& forall|j: int|
                1 <= j < w.len() ==> !(is_upper_char(#[trigger] w[j]) && is_upper_char(w[j - 1]))
            &&& w.len() > 0 ==> (is_upper_char(w[0]) <==> style == CaseType::Pascal)
        },
    }
}

/// A sub-word without capitals is fixed by lower-casing.
proof fn lemma_lowered_fixed(p: Seq<char>)
    requires
        forall|j: int| 0 <= j < p.len() ==> !is_upper_char(#[trigger] p[j]),
    ensures
        lowered(p) == p,
{
    assert(lowered(p) =~= p);
}

/// A sub-word without small letters is fixed by upper-casing.
proof fn lemma_uppered_fixed(p: Seq<char>)
    requires
        forall|j: int| 0 <= j < p.len() ==> !is_ascii_lower_char(#[trigger] p[j]),
    ensures
        uppered(p) == p,
{
    assert(uppered(p) =~= p);
}

/// A sub-word that opens with a capital and continues without one is
/// fixed by capitalization.
proof fn lemma_capitalized_fixed(p: Seq<char>)
    requires
        p.len() > 0,
        is_upper_char(p[0]),
        forall|j: int| 1 <= j < p.len() ==> !is_upper_char(#[trigger] p[j]),
    ensures
        capitalized(p) == p,
{
    assert forall|j: int| 0 <= j < p.len() implies capitalized(p)[j] == p[j] by {
        if j >= 1 {
            assert(capitalized(p)[j] == lower_char(p.skip(1)[j - 1]));
        }
    }
    assert(capitalized(p) =~= p);
}

/// For the separator styles: from any sub-word start, the remainder of the
/// word renders back to a separator followed by that remainder.
proof fn lemma_sep_tail(style: CaseType, sep: char, w: Seq<char>, i: int)
    requires
        separator(style) == Some(sep),
        is_styled(style, w),
        0 <= i < w.len(),
        w[i] != sep,
    ensures
        render_rest(style, split_from(w, i)) == seq![sep] + w.skip(i),
    decreases w.len() - i,
{
    lemma_run_end_bounds(w, i);
    lemma_run_end_chars(w, i);
    let j = run_end(w, i);
    let p = w.subrange(i, j);
    assert(is_delim_char(sep));
    assert(!is_delim_char(w[i]));
    assert forall|k: int| i < k < j implies !is_delim_char(#[trigger] w[k]) by {
        assert(continues_at(w, k));
    }
    assert(forall|k: int| i <= k < j ==> #[trigger] w[k] != sep);
    assert(forall|k: int| 0 <= k < p.len() ==> plain_char_ok(style, #[trigger] p[k]));
    assert(styled_part(style, p) == p) by {
        match style {
            CaseType::ScreamingSnake => lemma_uppered_fixed(p),
            _ => lemma_lowered_fixed(p),
        }
    }
    let ps = split_from(w, i);
    assert(ps == seq![p] + split_from(w, j));
    assert(ps[0] == p);
    assert(ps.skip(1) =~= split_from(w, j));
    if j == w.len() {
        assert(split_from(w, j) =~= Seq::<Seq<char>>::empty());
        assert(render_rest(style, Seq::<Seq<char>>::empty()) =~= Seq::<char>::empty());
        assert(render_rest(style, ps) =~= rest_piece(style, p));
        assert(w.skip(i) =~= p);
        assert(render_rest(style, ps) =~= seq![sep] + w.skip(i));
    } else {
        // The run can only have stopped at a separator.
        assert(!continues_at(w, j));
        assert(w[j] == sep) by {
            if w[j] != sep {
                assert(plain_char_ok(style, w[j]));
                assert(w[j - 1] != sep);
                assert(!(is_upper_char(w[j]) && !is_upper_char(w[j - 1])));
            }
        }
        // No trailing and no doubled separator: a sub-word follows.
        assert(j + 1 < w.len()) by {
            assert(w[w.len() - 1] != sep);
        }
        assert(w[j + 1] != sep);
        assert(split_from(w, j) == split_from(w, j + 1));
        lemma_sep_tail(style, sep, w, j + 1);
        assert(render_rest(style, ps) =~= rest_piece(style, p) + render_rest(
            style,
            split_from(w, j + 1),
        ));
        assert(w.skip(i) =~= p + (seq![sep] + w.skip(j + 1)));
        assert(render_rest(style, ps) =~= seq![sep] + w.skip(i));
    }
}

/// For Pascal and Camel: from any capital, the remainder of the word
/// renders back to itself.
proof fn lemma_caps_tail(style: CaseType, w: Seq<char>, i: int)
    requires
        separator(style) == None::<char>,
        is_styled(style, w),
        0 <= i < w.len(),
        is_upper_char(w[i]),
    ensures
        render_rest(style, split_from(w, i)) == w.skip(i),
    decreases w.len() - i,
{
    lemma_run_end_bounds(w, i);
    lemma_run_end_chars(w, i);
    let j = run_end(w, i);
    let p = w.subrange(i, j);
    assert(!is_delim_char(w[i]));
    assert forall|k: int| i < k < j implies !is_upper_char(#[trigger] w[k]) by {
        assert(continues_at(w, k));
        if is_upper_char(w[k]) {
            assert(is_upper_char(w[k - 1]));
            assert(!(is_upper_char(w[k]) && is_upper_char(w[k - 1])));
        }
    }
    assert(p.len() > 0 && p[0] == w[i]);
    assert(forall|k: int| 1 <= k < p.len() ==> !is_upper_char(#[trigger] p[k]));
    lemma_capitalized_fixed(p);
    assert(styled_part(style, p) == p);
    assert(rest_piece(style, p) == p);
    let ps = split_from(w, i);
    assert(ps == seq![p] + split_from(w, j));
    assert(ps[0] == p);
    assert(ps.skip(1) =~= split_from(w, j));
    if j == w.len() {
        assert(split_from(w, j) =~= Seq::<Seq<char>>::empty());
        assert(render_rest(style, Seq::<Seq<char>>::empty()) =~= Seq::<char>::empty());
        assert(render_rest(style, ps) =~= p);
        assert(w.skip(i) =~= p);
    } else {
        // The run can only have stopped at a capital, which opens the next
        // sub-word.
        assert(!continues_at(w, j));
        assert(!is_delim_char(w[j]));
        assert(is_upper_char(w[j]));
        lemma_caps_tail(style, w, j);
        assert(render_rest(style, ps) =~= p + render_rest(style, split_from(w, j)));
        assert(w.skip(i) =~= p + w.skip(j));
        assert(render_rest(style, ps) =~= w.skip(i));
    }
}

/// Idempotence: a single word already correctly written in the style is
/// left unchanged by the conversion to that style; hence applying the
/// style twice yields the same result as applying it once.
pub proof fn lemma_styled_fixed(style: CaseType, w: Seq<char>)
    requires
        is_styled(style, w),
    ensures
        convert(style, w) == w,
        convert(style, convert(style, w)) == convert(style, w),
{
    if w.len() == 0 {
        assert(convert(style, w) =~= w);
        return ;
    }
    let ps = split_from(w, 0);
    match separator(style) {
        Some(sep) => {
            assert(w[0] != sep);
            assert(!is_delim_char(w[0]));
            lemma_run_end_bounds(w, 0);
            lemma_run_end_chars(w, 0);
            let j = run_end(w, 0);
            let p = w.subrange(0, j);
            assert(is_delim_char(sep));
            assert forall|k: int| 0 < k < j implies !is_delim_char(#[trigger] w[k]) by {
                assert(continues_at(w, k));
            }
            assert(forall|k: int| 0 <= k < j ==> #[trigger] w[k] != sep);
            assert(forall|k: int| 0 <= k < p.len() ==> plain_char_ok(style, #[trigger] p[k]));
            assert(styled_first(style, p) == p) by {
                match style {
                    CaseType::ScreamingSnake => lemma_uppered_fixed(p),
                    _ => lemma_lowered_fixed(p),
                }
            }
            assert(ps == seq![p] + split_from(w, j));
            assert(ps[0] == p);
            assert(ps.skip(1) =~= split_from(w, j));
            if j == w.len() {
                assert(split_from(w, j) =~= Seq::<Seq<char>>::empty());
                assert(render_rest(style, Seq::<Seq<char>>::empty()) =~= Seq::<char>::empty());
                assert(convert(style, w) =~= p);
                assert(w =~= p);
            } else {
                assert(!continues_at(w, j));
                assert(w[j] == sep) by {
                    if w[j] != sep {
                        assert(plain_char_ok(style, w[j]));
                        assert(w[j - 1] != sep);
                    }
                }
                assert(j + 1 < w.len()) by {
                    assert(w[w.len() - 1] != sep);
                }
                assert(w[j + 1] != sep);
                assert(split_from(w, j) == split_from(w, j + 1));
                lemma_sep_tail(style, sep, w, j + 1);
                assert(convert(style, w) =~= p + (seq![sep] + w.skip(j + 1)));
                assert(convert(style, w) =~= w);
            }
        },
        None => {
            lemma_run_end_bounds(w, 0);
            lemma_run_end_chars(w, 0);
            let j = run_end(w, 0);
            let p = w.subrange(0, j);
            assert forall|k: int| 0 < k < j implies !is_upper_char(#[trigger] w[k]) by {
                assert(continues_at(w, k));
                if is_upper_char(w[k]) {
                    assert(is_upper_char(w[k - 1]));
                    assert(!(is_upper_char(w[k]) && is_upper_char(w[k - 1])));
                }
            }
            assert(forall|k: int| 1 <= k < p.len() ==> !is_upper_char(#[trigger] p[k]));
            assert(styled_first(style, p) == p) by {
                if style == CaseType::Pascal {
                    assert(is_upper_char(w[0]));
                    lemma_capitalized_fixed(p);
                } else {
                    assert(!is_upper_char(w[0]));
                    assert(forall|k: int| 0 <= k < p.len() ==> !is_upper_char(#[trigger] p[k]));
                    lemma_lowered_fixed(p);
                }
            }
            assert(ps == seq![p] + split_from(w, j));
            assert(ps[0] == p);
            assert(ps.skip(1) =~= split_from(w, j));
            if j == w.len() {
                assert(split_from(w, j) =~= Seq::<Seq<char>>::empty());
                assert(render_rest(style, Seq::<Seq<char>>::empty()) =~= Seq::<char>::empty());
                assert(convert(style, w) =~= p);
                assert(w =~= p);
            } else {
                assert(!continues_at(w, j));
                assert(!is_delim_char(w[j]));
                assert(is_upper_char(w[j]));
                lemma_caps_tail(style, w, j);
                assert(convert(style, w) =~= p + w.skip(j));
                assert(convert(style, w) =~= w);
            }
        },
    }
}

} // verus!
