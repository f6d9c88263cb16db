//! Rendering: how a list of sub-words is re-joined in each case style, and
//! the executable word conversion built on it.

use crate::chars::{
    capitalized, capitalized_chars, chars_to_string, lowered, lowered_chars, str_to_chars,
    uppered, uppered_chars,
};
use crate::segment::{split_chars, split_text};
use crate::style::CaseType;
use vstd::prelude::*;

verus! {

/// The separator that the style writes between sub-words, if any.
pub open spec fn separator(style: CaseType) -> Option<char> {
    match style {
        CaseType::Pascal => None,
        CaseType::Camel => None,
        CaseType::Snake => Some('_'),
        CaseType::ScreamingSnake => Some('_'),
        CaseType::Kebab => Some('-'),
    }
}

/// A sub-word as the style writes it anywhere after the first position:
/// capitalized for Pascal and Camel, lower-cased for Snake and Kebab,
/// upper-cased for ScreamingSnake.
pub open spec fn styled_part(style: CaseType, p: Seq<char>) -> Seq<char> {
    match style {
        CaseType::Pascal => capitalized(p),
        CaseType::Camel => capitalized(p),
        CaseType::Snake => lowered(p),
        CaseType::ScreamingSnake => uppered(p),
        CaseType::Kebab => lowered(p),
    }
}

/// The first sub-word: Camel lower-cases it whole; every other style
/// writes it as it writes the rest.
pub open spec fn styled_first(style: CaseType, p: Seq<char>) -> Seq<char> {
    match style {
        CaseType::Camel => lowered(p),
        _ => styled_part(style, p),
    }
}

/// One sub-word after the first, preceded by the style's separator if the
/// style has one.
pub open spec fn rest_piece(style: CaseType, p: Seq<char>) -> Seq<char> {
    match separator(style) {
        Some(sep) => seq![sep] + styled_part(style, p),
        None => styled_part(style, p),
    }
}

/// All sub-words after the first, each written by `rest_piece`.
pub open spec fn render_rest(style: CaseType, ps: Seq<Seq<char>>) -> Seq<char>
    decreases ps.len(),
{
    if ps.len() == 0 {
        Seq::empty()
    } else {
        rest_piece(style, ps[0]) + render_rest(style, ps.skip(1))
    }
}

/// A list of sub-words re-joined as the style writes them.
pub open spec fn render(style: CaseType, ps: Seq<Seq<char>>) -> Seq<char> {
    if ps.len() == 0 {
        Seq::empty()
    } else {
        styled_first(style, ps[0]) + render_rest(style, ps.skip(1))
    }
}

/// The word conversion: the text is split into sub-words (at delimiters,
/// white space, and capitalization boundaries) and re-joined in the style.
pub open spec fn convert(style: CaseType, t: Seq<char>) -> Seq<char> {
    render(style, split_text(t))
}

/// Appending one sub-word to a list extends its rendering by one piece.
pub proof fn lemma_render_rest_push(style: CaseType, ps: Seq<Seq<char>>, p: Seq<char>)
    ensures
        render_rest(style, ps.push(p)) == render_rest(style, ps) + rest_piece(style, p),
    decreases ps.len(),
{
    if ps.len() == 0 {
        assert(ps.push(p)[0] == p);
        assert(ps.push(p).skip(1) =~= Seq::<Seq<char>>::empty());
        assert(render_rest(style, Seq::<Seq<char>>::empty()) =~= Seq::<char>::empty());
        assert(render_rest(style, ps.push(p)) =~= rest_piece(style, p));
        assert(render_rest(style, ps) + rest_piece(style, p) =~= rest_piece(style, p));
    } else {
        assert(ps.push(p).skip(1) =~= ps.skip(1).push(p));
        lemma_render_rest_push(style, ps.skip(1), p);
        assert(render_rest(style, ps.push(p)) =~= render_rest(style, ps) + rest_piece(
            style,
            p,
        ));
    }
}

pub proof fn lemma_render_push(style: CaseType, ps: Seq<Seq<char>>, p: Seq<char>)
    ensures
        ps.len() == 0 ==> render(style, ps.push(p)) == styled_first(style, p),
        ps.len() > 0 ==> render(style, ps.push(p)) == render(style, ps) + rest_piece(style, p),
{
    if ps.len() == 0 {
        assert(ps.push(p).skip(1) =~= Seq::<Seq<char>>::empty());
        assert(render(style, ps.push(p)) =~= styled_first(style, p));
    } else {
        assert(ps.push(p).skip(1) =~= ps.skip(1).push(p));
        lemma_render_rest_push(style, ps.skip(1), p);
        assert(render(style, ps.push(p)) =~= render(style, ps) + rest_piece(style, p));
    }
}

/// Writes one sub-word as the style renders it at the given position, and
/// appends it (with the separator, where one is due) to `out`.
fn push_piece(style: CaseType, p: &Vec<char>, first: bool, out: &mut Vec<char>)
    ensures
        final(out)@ == old(out)@ + (if first {
            styled_first(style, p@)
        } else {
            rest_piece(style, p@)
        }),
{
    if !first {
        match style {
            CaseType::Snake => out.push('_'),
            CaseType::ScreamingSnake => out.push('_'),
            CaseType::Kebab => out.push('-'),
            _ => (),
        }
    }
    let mut piece: Vec<char> = match style {
        CaseType::Snake => lowered_chars(p),
        CaseType::Kebab => lowered_chars(p),
        CaseType::ScreamingSnake => uppered_chars(p),
        CaseType::Camel => {
            if first {
                lowered_chars(p)
            } else {
                capitalized_chars(p)
            }
        },
        CaseType::Pascal => capitalized_chars(p),
    };
    out.append(&mut piece);
    proof {
        if first {
            assert(final(out)@ =~= old(out)@ + styled_first(style, p@));
        } else {
            assert(final(out)@ =~= old(out)@ + rest_piece(style, p@));
        }
    }
}

/// Converts one word (or any text treated as one list of sub-words) held
/// as characters.
pub fn convert_chars(style: CaseType, w: &Vec<char>) -> (out: Vec<char>)
    ensures
        out@ == convert(style, w@),
{
    let parts = split_chars(w);
    let ghost ps = parts.deep_view();
    let mut out: Vec<char> = Vec::new();
    let mut k: usize = 0;
    while k < parts.len()
        invariant
            k <= parts@.len(),
            ps == parts.deep_view(),
            ps == split_text(w@),
            out@ == render(style, ps.take(k as int)),
        decreases parts@.len() - k,
    {
        proof {
            assert(ps.take(k as int).push(ps[k as int]) =~= ps.take(k as int + 1));
            lemma_render_push(style, ps.take(k as int), ps[k as int]);
            assert(parts@[k as int].deep_view() == ps[k as int]);
        }
        push_piece(style, &parts[k], k == 0, &mut out);
        k += 1;
    }
    proof {
        assert(ps.take(parts@.len() as int) =~= ps);
    }
    out
}

impl CaseType {
    /// Converts a text as one run of sub-words: existing delimiters, white
    /// space and internal capitalization all separate sub-words, and the
    /// result is re-joined in this style.
    pub fn transform(&self, text: &str) -> (r: String)
        ensures
            r@ == convert(*self, text@),
    {
        let w = str_to_chars(text);
        let out = convert_chars(*self, &w);
        chars_to_string(&out)
    }
}

} // verus!
