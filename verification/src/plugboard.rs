//! The plugboard: a mutable involutive pairing of the 26 letters,
//! applied before and after the rotor stack.
//!
//! The default wiring pairs every letter with a distinct partner; pairs
//! can be re-wired at runtime with `swap_letter_wiring`.

use vstd::prelude::*;

use crate::alphabet::{alpha_index, is_letter, letter_index, symbol_at};
use crate::error::EnigmaError;
use crate::wiring::{
    is_involution, lemma_involution_is_permutation, lemma_involution_preimage, no_fixed_points,
    preimage,
};

verus! {

/// One plugboard.
#[derive(Clone)]
pub struct Plugboard {
    conversions: Vec<u8>,
}

impl View for Plugboard {
    type V = Seq<u8>;

    closed spec fn view(&self) -> Seq<u8> {
        self.conversions@
    }
}

/// The default plugboard pairing.
pub open spec fn default_plugboard() -> Seq<u8> {
    seq![25u8, 15u8, 12u8, 18u8, 24u8, 20u8, 13u8, 21u8, 16u8, 23u8, 19u8, 17u8, 2u8, 6u8, 22u8,
        1u8, 8u8, 11u8, 3u8, 10u8, 5u8, 7u8, 14u8, 9u8, 4u8, 0u8]
}

impl Plugboard {
    /// A valid plugboard: an involution over the 26 letters.
    pub open spec fn wf(self) -> bool {
        is_involution(self@)
    }

    /// A plugboard with the default pairing, which has no self-paired
    /// letter.
    pub fn new() -> (r: Plugboard)
        ensures
            r.wf(),
            r@ == default_plugboard(),
            no_fixed_points(r@),
    {
        let conversions: Vec<u8> = vec![25, 15, 12, 18, 24, 20, 13, 21, 16, 23, 19, 17, 2, 6, 22,
            1, 8, 11, 3, 10, 5, 7, 14, 9, 4, 0];
        proof {
            assert(conversions@ =~= default_plugboard());
            assert(is_involution(default_plugboard()));
            assert(no_fixed_points(default_plugboard()));
        }
        Plugboard { conversions }
    }

    /// The table lookup for a contact index.
    pub(crate) fn map_index(&self, i: u8) -> (r: u8)
        requires
            self.wf(),
            i < 26,
        ensures
            r == self@[i as int],
            r < 26,
    {
        self.conversions[i as usize]
    }

    /// The contact index wired to a contact index: an O(26) preimage
    /// search, which for an involution finds the same partner as the
    /// forward lookup.
    pub(crate) fn inv_index(&self, i: u8) -> (r: u8)
        requires
            self.wf(),
            i < 26,
        ensures
            r as int == preimage(self@, i as int),
            r == self@[i as int],
            r < 26,
    {
        proof {
            lemma_involution_preimage(self@, i as int);
        }
        let mut k: usize = 0;
        while k < 26
            invariant
                self.wf(),
                i < 26,
                k <= 26,
                forall|j: int| 0 <= j < k ==> self@[j] != i,
            decreases 26 - k,
        {
            if self.conversions[k] == i {
                proof {
                    lemma_involution_is_permutation(self@);
                    crate::wiring::lemma_preimage(self@, i as int);
                }
                return k as u8;
            }
            k += 1;
        }
        proof {
            assert(self@[self@[i as int] as int] == i);
            assert(false);
        }
        0
    }

    /// The letter the given letter is wired to.
    pub fn convert(&self, letter: char) -> (r: Result<char, EnigmaError>)
        requires
            self.wf(),
        ensures
            is_letter(letter) ==> r is Ok && is_letter(r->Ok_0)
                && letter_index(r->Ok_0) == self@[letter_index(letter)],
            !is_letter(letter) ==> r == Err::<char, EnigmaError>(EnigmaError::InvalidSymbol),
    {
        match alpha_index(letter) {
            Ok(pos) => Ok(symbol_at(self.map_index(pos as u8) as usize)),
            Err(e) => Err(e),
        }
    }

    /// The letter wired to the given letter. Because the wiring is an
    /// involution, this returns the same letter as `convert`.
    pub fn convert_inv(&self, letter: char) -> (r: Result<char, EnigmaError>)
        requires
            self.wf(),
        ensures
            is_letter(letter) ==> r is Ok && is_letter(r->Ok_0)
                && letter_index(r->Ok_0) == self@[letter_index(letter)],
            !is_letter(letter) ==> r == Err::<char, EnigmaError>(EnigmaError::InvalidSymbol),
    {
        match alpha_index(letter) {
            Ok(pos) => Ok(symbol_at(self.inv_index(pos as u8) as usize)),
            Err(e) => Err(e),
        }
    }

    /// Re-wire so `letter_1` and `letter_2` map to each other; their
    /// previous partners are re-paired with each other. Both original
    /// partners are read before any cell is written. Each of the two
    /// letters must currently have a partner other than itself; every
    /// plugboard this crate builds keeps that true.
    pub fn swap_letter_wiring(&mut self, letter_1: char, letter_2: char)
        requires
            old(self).wf(),
            is_letter(letter_1),
            is_letter(letter_2),
            old(self)@[letter_index(letter_1)] != letter_index(letter_1),
            old(self)@[letter_index(letter_2)] != letter_index(letter_2),
        ensures
            final(self).wf(),
            final(self)@.len() == 26,
            final(self)@[letter_index(letter_1)] == letter_index(letter_2),
            final(self)@[letter_index(letter_2)] == letter_index(letter_1),
            final(self)@[old(self)@[letter_index(letter_1)] as int]
                == old(self)@[letter_index(letter_2)],
            final(self)@[old(self)@[letter_index(letter_2)] as int]
                == old(self)@[letter_index(letter_1)],
            forall|c: int| 0 <= c < 26
                && c != letter_index(letter_1) && c != letter_index(letter_2)
                && c != old(self)@[letter_index(letter_1)] as int
                && c != old(self)@[letter_index(letter_2)] as int
                ==> final(self)@[c] == old(self)@[c],
            (no_fixed_points(old(self)@) && letter_index(letter_1) != letter_index(letter_2))
                ==> no_fixed_points(final(self)@),
    {
        let i1 = match alpha_index(letter_1) {
            Ok(p) => p,
            Err(_) => { proof { assert(false); } 0 },
        };
        let i2 = match alpha_index(letter_2) {
            Ok(p) => p,
            Err(_) => { proof { assert(false); } 0 },
        };
        let init_1 = self.conversions[i1];
        let init_2 = self.conversions[i2];
        self.conversions[i1] = i2 as u8;
        self.conversions[i2] = i1 as u8;
        self.conversions[init_2 as usize] = init_1;
        self.conversions[init_1 as usize] = init_2;
        proof {
            let t0 = old(self)@;
            let t = self@;
            let a = i1 as int;
            let b = i2 as int;
            let pa = t0[a] as int;
            let pb = t0[b] as int;
            // the two pairs may only collide as whole pairs
            assert(t0[pa] == a && t0[pb] == b);
            assert(pa == b <==> pb == a);
            assert(t[a] == b && t[b] == a && t[pa] == pb && t[pb] == pa);
            assert forall|c: int| 0 <= c < 26 implies t[#[trigger] t[c] as int] == c by {
                if c != a && c != b && c != pa && c != pb {
                    let d = t0[c] as int;
                    assert(t0[d] == c);
                }
            }
        }
    }
}

/// The plugboard is self-inverse: wiring a letter through the board
/// twice returns the original letter.
pub proof fn lemma_plugboard_involution(t: Seq<u8>, i: int)
    requires
        is_involution(t),
        0 <= i < 26,
    ensures
        t[t[i] as int] == i,
{
}

} // verus!
