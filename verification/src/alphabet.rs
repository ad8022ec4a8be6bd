//! The fixed 26-letter alphabet and index/symbol conversion.
//!
//! Every component of the machine works on positions 0..26 into the
//! alphabet `A`..`Z`; letters are converted to indices at the boundary.

use vstd::prelude::*;

use crate::error::EnigmaError;

verus! {

/// A character is a letter of the machine's alphabet: an uppercase
/// ASCII letter.
pub open spec fn is_letter(c: char) -> bool {
    65 <= c as int <= 90
}

/// The position of a letter in the alphabet (`A` is 0, `Z` is 25).
pub open spec fn letter_index(c: char) -> int {
    c as int - 65
}

/// An ASCII lowercase letter maps to its uppercase form; any other
/// character is left as it is.
pub open spec fn spec_upper(c: char) -> char {
    if 97 <= c as int <= 122 {
        ((c as u8) - 32) as char
    } else {
        c
    }
}

/// Uppercase an ASCII letter, leaving every other character unchanged.
pub fn to_upper(c: char) -> (r: char)
    ensures
        r == spec_upper(c),
{
    let u = c as u32;
    if 97 <= u && u <= 122 {
        ((u - 32) as u8) as char
    } else {
        c
    }
}

/// The position of a letter in the alphabet, or `InvalidSymbol` for a
/// character outside `A`..`Z`.
pub fn alpha_index(letter: char) -> (r: Result<usize, EnigmaError>)
    ensures
        is_letter(letter) <==> r is Ok,
        r is Ok ==> r->Ok_0 == letter_index(letter),
        r is Err ==> r->Err_0 == EnigmaError::InvalidSymbol,
{
    let u = letter as u32;
    if 65 <= u && u <= 90 {
        Ok((u - 65) as usize)
    } else {
        Err(EnigmaError::InvalidSymbol)
    }
}

/// The letter at a position, as a specification value.
pub open spec fn letter_of(i: int) -> char {
    ((i + 65) as u32) as char
}

/// For positions 0..26, `letter_of` yields the letter at that position.
pub proof fn lemma_letter_of(i: int)
    requires
        0 <= i < 26,
    ensures
        is_letter(letter_of(i)),
        letter_index(letter_of(i)) == i,
{
}

/// `letter_of` inverts `letter_index` on letters.
pub proof fn lemma_letter_of_index(c: char)
    requires
        is_letter(c),
    ensures
        letter_of(letter_index(c)) == c,
{
    vstd::utf8::char_u32_cast(c, (letter_index(c) + 65) as u32);
}

/// The letter at a position of the alphabet; total over 0..26.
pub fn symbol_at(position: usize) -> (r: char)
    requires
        position < 26,
    ensures
        is_letter(r),
        letter_index(r) == position,
        r == letter_of(position as int),
{
    let r = ((65 + position as u8)) as char;
    proof {
        lemma_letter_of(position as int);
        vstd::utf8::char_u32_cast(r, (position + 65) as u32);
    }
    r
}


/// An ASCII whitespace character: space, tab, or a line break.
pub open spec fn is_space(c: char) -> bool {
    c == ' ' || c == '\t' || c == '\n' || c == '\r'
}

/// Whether a character is ASCII whitespace.
pub fn is_space_char(c: char) -> (r: bool)
    ensures
        r == is_space(c),
{
    c == ' ' || c == '\t' || c == '\n' || c == '\r'
}

} // verus!
