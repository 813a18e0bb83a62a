//! Character lowering. Matching is case-insensitive: the query and each
//! candidate word are compared through the lowercase form of their
//! characters, one character at a time.

use vstd::prelude::*;

verus! {

/// The first character of the Unicode lowercase mapping of a character
/// beyond ASCII. The full Unicode mapping takes pages to state, so it is
/// only named here; `to_lower_char` is the one function that produces it.
pub uninterp spec fn unicode_lower_char(c: char) -> char;

/// Whether `c` is an ASCII uppercase letter.
pub open spec fn is_ascii_upper(c: char) -> bool {
    ('A' as u32) <= (c as u32) && (c as u32) <= ('Z' as u32)
}

/// The lowercase form of one character: ASCII uppercase letters map to their
/// lowercase counterparts, every other ASCII character to itself, and
/// characters beyond ASCII to the first character of their Unicode lowercase
/// mapping.
pub open spec fn lower_char(c: char) -> char {
    if is_ascii_upper(c) {
        ((c as u32 + 32) as u32) as char
    } else if (c as u32) < 128 {
        c
    } else {
        unicode_lower_char(c)
    }
}

/// `s` lowered character by character.
pub open spec fn lower_seq(s: Seq<char>) -> Seq<char> {
    Seq::new(s.len(), |i: int| lower_char(s[i]))
}

/// Relies on `char::to_lowercase`: its result depends on the character
/// alone; it maps ASCII uppercase letters to their lowercase counterparts,
/// leaves other ASCII characters unchanged, and for any other character
/// yields its Unicode lowercase mapping, whose first character
/// `unicode_lower_char` names. The iterator it returns is never empty, so
/// the fallback arm of `unwrap_or` is never taken.
#[verifier::external_body]
pub(crate) fn to_lower_char(c: char) -> (r: char)
    ensures
        r == lower_char(c),
        (c as u32) >= 128 ==> r == unicode_lower_char(c),
{
    c.to_lowercase().next().unwrap_or(c)
}

/// Lower every character of `cs`.
pub fn lower_chars(cs: &Vec<char>) -> (r: Vec<char>)
    ensures
        r@ == lower_seq(cs@),
{
    let mut r: Vec<char> = Vec::new();
    let mut i: usize = 0;
    while i < cs.len()
        invariant
            i <= cs.len(),
            r@.len() == i,
            forall|j: int| 0 <= j < i ==> r@[j] == lower_char(cs@[j]),
        decreases cs.len() - i,
    {
        r.push(to_lower_char(cs[i]));
        i += 1;
    }
    proof {
        assert(r@ =~= lower_seq(cs@));
    }
    r
}

} // verus!
