//! Character classes and the ASCII case maps that the word conversion uses.

use vstd::prelude::*;
use vstd::string::StrSliceExecFns;

verus! {

/// The Unicode white-space code points, exactly the set that
/// `char::is_whitespace` recognizes.
pub open spec fn is_space_char(c: char) -> bool {
    let u = c as u32;
    u == 0x09 || u == 0x0A || u == 0x0B || u == 0x0C || u == 0x0D || u == 0x20 || u == 0x85
        || u == 0xA0 || u == 0x1680 || (0x2000 <= u && u <= 0x200A) || u == 0x2028 || u == 0x2029
        || u == 0x202F || u == 0x205F || u == 0x3000
}

/// ASCII capital letters; inside a word they open a new sub-word when the
/// preceding character is not itself a capital.
pub open spec fn is_upper_char(c: char) -> bool {
    0x41 <= c as u32 && c as u32 <= 0x5A
}

/// ASCII small letters, the targets of the lower-casing map.
pub open spec fn is_ascii_lower_char(c: char) -> bool {
    0x61 <= c as u32 && c as u32 <= 0x7A
}

/// Characters that separate sub-words: the explicit delimiters `_` and `-`,
/// and white space (a space inside a text converted as one unit separates
/// sub-words just as an underscore does).
pub open spec fn is_delim_char(c: char) -> bool {
    c == '_' || c == '-' || is_space_char(c)
}

/// ASCII lower-casing: capital letters move down by 0x20, everything else is
/// left unchanged (no locale-aware rules).
pub open spec fn lower_char(c: char) -> char {
    if is_upper_char(c) {
        (c as u32 + 0x20) as char
    } else {
        c
    }
}

/// ASCII upper-casing: small letters move up by 0x20, everything else is
/// left unchanged.
pub open spec fn upper_char(c: char) -> char {
    if is_ascii_lower_char(c) {
        (c as u32 - 0x20) as char
    } else {
        c
    }
}

pub fn char_is_space(c: char) -> (b: bool)
    ensures
        b == is_space_char(c),
{
    let u = c as u32;
    u == 0x09 || u == 0x0A || u == 0x0B || u == 0x0C || u == 0x0D || u == 0x20 || u == 0x85
        || u == 0xA0 || u == 0x1680 || (0x2000 <= u && u <= 0x200A) || u == 0x2028 || u == 0x2029
        || u == 0x202F || u == 0x205F || u == 0x3000
}

pub fn char_is_upper(c: char) -> (b: bool)
    ensures
        b == is_upper_char(c),
{
    let u = c as u32;
    0x41 <= u && u <= 0x5A
}

pub fn char_is_delim(c: char) -> (b: bool)
    ensures
        b == is_delim_char(c),
{
    c == '_' || c == '-' || char_is_space(c)
}

pub fn char_to_lower(c: char) -> (r: char)
    ensures
        r == lower_char(c),
{
    let u = c as u32;
    if 0x41 <= u && u <= 0x5A {
        let l = u + 0x20;
        proof {
            assert(l as u8 as u32 == l) by (bit_vector)
                requires
                    0x61 <= l && l <= 0x7A,
            ;
        }
        (l as u8) as char
    } else {
        c
    }
}

pub fn char_to_upper(c: char) -> (r: char)
    ensures
        r == upper_char(c),
{
    let u = c as u32;
    if 0x61 <= u && u <= 0x7A {
        let l = u - 0x20;
        proof {
            assert(l as u8 as u32 == l) by (bit_vector)
                requires
                    0x41 <= l && l <= 0x5A,
            ;
        }
        (l as u8) as char
    } else {
        c
    }
}

/// Every character of a sequence lower-cased.
pub open spec fn lowered(s: Seq<char>) -> Seq<char> {
    s.map_values(|c: char| lower_char(c))
}

/// Every character of a sequence upper-cased.
pub open spec fn uppered(s: Seq<char>) -> Seq<char> {
    s.map_values(|c: char| upper_char(c))
}

/// A sub-word capitalized: its first character upper-cased, the rest
/// lower-cased.
pub open spec fn capitalized(p: Seq<char>) -> Seq<char> {
    if p.len() == 0 {
        p
    } else {
        seq![upper_char(p[0])] + lowered(p.skip(1))
    }
}

/// Every character of a vector lower-cased.
pub fn lowered_chars(p: &Vec<char>) -> (r: Vec<char>)
    ensures
        r@ == lowered(p@),
{
    let mut r: Vec<char> = Vec::new();
    let mut i: usize = 0;
    while i < p.len()
        invariant
            i <= p@.len(),
            r@ == lowered(p@).take(i as int),
        decreases p@.len() - i,
    {
        r.push(char_to_lower(p[i]));
        i += 1;
        proof {
            assert(r@ =~= lowered(p@).take(i as int));
        }
    }
    proof {
        assert(r@ =~= lowered(p@));
    }
    r
}

/// Every character of a vector upper-cased.
pub fn uppered_chars(p: &Vec<char>) -> (r: Vec<char>)
    ensures
        r@ == uppered(p@),
{
    let mut r: Vec<char> = Vec::new();
    let mut i: usize = 0;
    while i < p.len()
        invariant
            i <= p@.len(),
            r@ == uppered(p@).take(i as int),
        decreases p@.len() - i,
    {
        r.push(char_to_upper(p[i]));
        i += 1;
        proof {
            assert(r@ =~= uppered(p@).take(i as int));
        }
    }
    proof {
        assert(r@ =~= uppered(p@));
    }
    r
}

/// A vector capitalized: first character upper-cased, the rest lower-cased.
pub fn capitalized_chars(p: &Vec<char>) -> (r: Vec<char>)
    ensures
        r@ == capitalized(p@),
{
    let mut r: Vec<char> = Vec::new();
    if p.len() == 0 {
        proof {
            assert(r@ =~= capitalized(p@));
        }
        return r;
    }
    r.push(char_to_upper(p[0]));
    proof {
        assert(r@ =~= capitalized(p@).take(1));
    }
    let mut i: usize = 1;
    while i < p.len()
        invariant
            1 <= i <= p@.len(),
            r@ == capitalized(p@).take(i as int),
        decreases p@.len() - i,
    {
        r.push(char_to_lower(p[i]));
        i += 1;
        proof {
            assert(r@ =~= capitalized(p@).take(i as int));
        }
    }
    proof {
        assert(r@ =~= capitalized(p@));
    }
    r
}

/// The characters of a string slice, in order.
pub fn str_to_chars(s: &str) -> (r: Vec<char>)
    ensures
        r@ == s@,
{
    let n = s.unicode_len();
    let mut r: Vec<char> = Vec::new();
    let mut i: usize = 0;
    while i < n
        invariant
            i <= n,
            n == s@.len(),
            r@ == s@.take(i as int),
        decreases n - i,
    {
        r.push(s.get_char(i));
        i += 1;
        proof {
            assert(r@ =~= s@.take(i as int));
        }
    }
    proof {
        assert(r@ =~= s@);
    }
    r
}

/// Relies on `String`'s `FromIterator<char>` implementation: collecting
/// characters yields the string that holds exactly those characters in order.
#[verifier::external_body]
pub(crate) fn chars_to_string(v: &Vec<char>) -> (r: String)
    ensures
        r@ == v@,
{
    v.iter().collect()
}

} // verus!
