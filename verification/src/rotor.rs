//! Rotors: a wiring permutation, a set of turnover notches, and a
//! rotational face.
//!
//! The wiring table is expressed relative to the rotor's own zero point;
//! the face only records how far the rotor has turned. Ring settings
//! (Ringstellung) cyclically shift the wiring table itself.

use vstd::prelude::*;

use crate::alphabet::{alpha_index, is_letter, letter_index, symbol_at};
use crate::error::EnigmaError;
use crate::wiring::{has_preimage, is_permutation, preimage, lemma_preimage};

verus! {

/// The mathematical content of a rotor: its wiring table, notch
/// positions, face position, and historical name.
pub ghost struct RotorV {
    pub wiring: Seq<u8>,
    pub notches: Seq<u8>,
    pub face: u8,
    pub name: Seq<char>,
}

impl RotorV {
    /// A valid rotor: the wiring is a permutation and every position is
    /// a contact 0..26.
    pub open spec fn wf(self) -> bool {
        &&& is_permutation(self.wiring)
        &&& self.face < 26
        &&& forall|i: int| 0 <= i < self.notches.len() ==> self.notches[i] < 26
    }

    /// The rotor's face currently shows one of its notch letters, so it
    /// will carry its left neighbour on the next step.
    pub open spec fn at_notch(self) -> bool {
        self.notches.contains(self.face)
    }
}

/// One rotor of the machine.
#[derive(Clone)]
pub struct Rotor {
    wiring: Vec<u8>,
    notches: Vec<u8>,
    face: u8,
    name: String,
}

impl View for Rotor {
    type V = RotorV;

    closed spec fn view(&self) -> RotorV {
        RotorV {
            wiring: self.wiring@,
            notches: self.notches@,
            face: self.face,
            name: self.name@,
        }
    }
}

impl PartialEq for Rotor {
    fn eq(&self, other: &Self) -> bool {
        self.notches == other.notches && self.wiring == other.wiring && self.face == other.face
            && self.name == other.name
    }
}

impl vstd::std_specs::cmp::PartialEqSpecImpl for Rotor {
    open spec fn obeys_eq_spec() -> bool {
        true
    }

    open spec fn eq_spec(&self, other: &Rotor) -> bool {
        &&& self@.notches =~= other@.notches
        &&& self@.wiring =~= other@.wiring
        &&& self@.face == other@.face
        &&& self@.name == other@.name
    }
}

impl Rotor {
    /// A valid rotor (see `RotorV::wf`).
    pub open spec fn wf(self) -> bool {
        self@.wf()
    }

    /// The wiring output contact for an input contact.
    pub(crate) fn wire_index(&self, i: u8) -> (r: u8)
        requires
            self.wf(),
            i < 26,
        ensures
            r == self@.wiring[i as int],
            r < 26,
    {
        self.wiring[i as usize]
    }

    /// The wiring input contact that connects to an output contact: an
    /// O(26) search through the table.
    pub(crate) fn wire_index_inv(&self, i: u8) -> (r: u8)
        requires
            self.wf(),
            i < 26,
        ensures
            r as int == preimage(self@.wiring, i as int),
            r < 26,
    {
        let mut k: usize = 0;
        while k < 26
            invariant
                self.wf(),
                i < 26,
                k <= 26,
                forall|j: int| 0 <= j < k ==> self@.wiring[j] != i,
            decreases 26 - k,
        {
            if self.wiring[k] == i {
                proof {
                    lemma_preimage(self@.wiring, i as int);
                }
                return k as u8;
            }
            k += 1;
        }
        proof {
            assert(has_preimage(self@.wiring, i as int));
            assert(false);
        }
        0
    }

    /// The rotor's current rotational position as a contact index.
    pub(crate) fn face_index(&self) -> (r: u8)
        ensures
            r == self@.face,
    {
        self.face
    }

    /// Whether the rotor's face stands on one of its own notches.
    pub(crate) fn notch_hit(&self) -> (r: bool)
        ensures
            r == self@.at_notch(),
    {
        let mut k: usize = 0;
        while k < self.notches.len()
            invariant
                k <= self@.notches.len(),
                forall|j: int| 0 <= j < k ==> self@.notches[j] != self@.face,
            decreases self@.notches.len() - k,
        {
            if self.notches[k] == self.face {
                return true;
            }
            k += 1;
        }
        false
    }

    /// Turn the face one position, wrapping from `Z` back to `A`. The
    /// second rotor, when one is given, is turned the same way and then
    /// dropped, exactly as if it had been stepped in isolation.
    pub fn rotate(&mut self, other: Option<Rotor>)
        ensures
            final(self)@.face == if old(self)@.face > 24 { 0u8 } else { (old(self)@.face + 1) as u8 },
            old(self)@.face < 26 ==> final(self)@.face as int == (old(self)@.face + 1) % 26,
            final(self)@.wiring == old(self)@.wiring,
            final(self)@.notches == old(self)@.notches,
            final(self)@.name == old(self)@.name,
            old(self).wf() ==> final(self).wf(),
    {
        self.advance();
        match other {
            Some(mut o) => {
                o.advance();
            },
            None => {},
        }
    }

    /// Turn the face one position, wrapping from `Z` back to `A`.
    fn advance(&mut self)
        ensures
            final(self)@.face == if old(self)@.face > 24 { 0u8 } else { (old(self)@.face + 1) as u8 },
            old(self)@.face < 26 ==> final(self)@.face as int == (old(self)@.face + 1) % 26,
            final(self)@.wiring == old(self)@.wiring,
            final(self)@.notches == old(self)@.notches,
            final(self)@.name == old(self)@.name,
            old(self).wf() ==> final(self).wf(),
    {
        if self.face > 24 {
            self.face = 0;
        } else {
            self.face = self.face + 1;
        }
    }

    /// The letter showing on the rotor's face.
    pub fn get_face_letter(&self) -> (r: char)
        requires
            self.wf(),
        ensures
            is_letter(r),
            letter_index(r) == self@.face,
    {
        symbol_at(self.face as usize)
    }

    /// The rotor's notch positions, as letters.
    pub fn get_notches(&self) -> (r: Vec<char>)
        requires
            self.wf(),
        ensures
            r@.len() == self@.notches.len(),
            forall|i: int| 0 <= i < r@.len() ==>
                is_letter(#[trigger] r@[i]) && letter_index(r@[i]) == self@.notches[i],
    {
        let mut out: Vec<char> = Vec::new();
        let mut k: usize = 0;
        while k < self.notches.len()
            invariant
                self.wf(),
                k <= self@.notches.len(),
                out@.len() == k,
                forall|i: int| 0 <= i < k ==>
                    is_letter(#[trigger] out@[i]) && letter_index(out@[i]) == self@.notches[i],
            decreases self@.notches.len() - k,
        {
            out.push(symbol_at(self.notches[k] as usize));
            k += 1;
        }
        out
    }

    /// One ring-setting shift: cyclically rotate the wiring table left,
    /// so each contact takes over its right neighbour's output. The dial
    /// face does not move.
    pub fn rotate_inner_ring(&mut self)
        requires
            old(self).wf(),
        ensures
            forall|i: int| 0 <= i < 26 ==>
                final(self)@.wiring[i] == old(self)@.wiring[(i + 1) % 26],
            final(self)@.notches == old(self)@.notches,
            final(self)@.face == old(self)@.face,
            final(self)@.name == old(self)@.name,
            final(self).wf(),
    {
        let first = self.wiring[0];
        let mut k: usize = 0;
        while k < 25
            invariant
                k <= 25,
                first == old(self)@.wiring[0],
                self@.wiring.len() == 26,
                forall|i: int| 0 <= i < k ==> self@.wiring[i] == old(self)@.wiring[i + 1],
                forall|i: int| k <= i < 26 ==> self@.wiring[i] == old(self)@.wiring[i],
                self@.notches == old(self)@.notches,
                self@.face == old(self)@.face,
                self@.name == old(self)@.name,
            decreases 25 - k,
        {
            let next = self.wiring[k + 1];
            self.wiring[k] = next;
            k += 1;
        }
        self.wiring[25] = first;
        proof {
            lemma_rotated_is_permutation(old(self)@.wiring, self@.wiring, 1);
        }
    }

    /// Apply a ring setting: `n` cyclic left-rotations of the wiring
    /// table, leaving face and notches untouched.
    pub fn apply_ring_offset(&mut self, n: usize)
        requires
            old(self).wf(),
        ensures
            forall|i: int| 0 <= i < 26 ==>
                final(self)@.wiring[i] == old(self)@.wiring[(i + n) % 26],
            final(self)@.notches == old(self)@.notches,
            final(self)@.face == old(self)@.face,
            final(self)@.name == old(self)@.name,
            final(self).wf(),
    {
        let mut k: usize = 0;
        while k < n
            invariant
                k <= n,
                self.wf(),
                forall|i: int| 0 <= i < 26 ==>
                    self@.wiring[i] == old(self)@.wiring[(i + k) % 26],
                self@.notches == old(self)@.notches,
                self@.face == old(self)@.face,
                self@.name == old(self)@.name,
            decreases n - k,
        {
            let ghost before = self@.wiring;
            self.rotate_inner_ring();
            proof {
                assert forall|i: int| 0 <= i < 26 implies
                    self@.wiring[i] == old(self)@.wiring[(i + k + 1) % 26] by {
                    assert(self@.wiring[i] == before[(i + 1) % 26]);
                    assert(before[(i + 1) % 26] == old(self)@.wiring[(((i + 1) % 26) + k) % 26]);
                    vstd::arithmetic::div_mod::lemma_add_mod_noop((i + 1), k as int, 26);
                    vstd::arithmetic::div_mod::lemma_add_mod_noop_right((i + 1) % 26, k as int, 26);
                }
            }
            k += 1;
        }
    }

    /// The output contact reached from a letter's input contact.
    pub fn get_output_terminal(self, letter: char) -> (r: Result<u8, EnigmaError>)
        requires
            self.wf(),
        ensures
            is_letter(letter) ==> r == Ok::<u8, EnigmaError>(self@.wiring[letter_index(letter)]),
            !is_letter(letter) ==> r == Err::<u8, EnigmaError>(EnigmaError::InvalidSymbol),
    {
        match alpha_index(letter) {
            Ok(pos) => Ok(self.wiring[pos]),
            Err(e) => Err(e),
        }
    }

    /// The input contact for a letter: its own alphabet position.
    pub fn get_input_terminal(self, letter: char) -> (r: Result<u8, EnigmaError>)
        requires
            self.wf(),
        ensures
            is_letter(letter) ==> r == Ok::<u8, EnigmaError>(letter_index(letter) as u8),
            !is_letter(letter) ==> r == Err::<u8, EnigmaError>(EnigmaError::InvalidSymbol),
    {
        match alpha_index(letter) {
            Ok(pos) => Ok(pos as u8),
            Err(e) => Err(e),
        }
    }

    /// Forward signal pass: the letter wired to the given letter's
    /// contact.
    pub fn convert(&self, letter: char) -> (r: Result<char, EnigmaError>)
        requires
            self.wf(),
        ensures
            is_letter(letter) ==> r is Ok && is_letter(r->Ok_0)
                && letter_index(r->Ok_0) == self@.wiring[letter_index(letter)],
            !is_letter(letter) ==> r == Err::<char, EnigmaError>(EnigmaError::InvalidSymbol),
    {
        match alpha_index(letter) {
            Ok(pos) => Ok(symbol_at(self.wire_index(pos as u8) as usize)),
            Err(e) => Err(e),
        }
    }

    /// Reverse signal pass: the letter whose contact is wired to the
    /// given letter's contact. The search cannot fail for a well-formed
    /// rotor, whose wiring is a permutation.
    pub fn convert_inv(&self, letter: char) -> (r: Result<char, EnigmaError>)
        requires
            self.wf(),
        ensures
            is_letter(letter) ==> r is Ok && is_letter(r->Ok_0)
                && letter_index(r->Ok_0) == preimage(self@.wiring, letter_index(letter)),
            !is_letter(letter) ==> r == Err::<char, EnigmaError>(EnigmaError::InvalidSymbol),
    {
        match alpha_index(letter) {
            Ok(pos) => {
                proof {
                    lemma_preimage(self@.wiring, pos as int);
                }
                Ok(symbol_at(self.wire_index_inv(pos as u8) as usize))
            },
            Err(e) => Err(e),
        }
    }
}

/// A table produced by `s` left-rotations of a permutation is again a
/// permutation.
proof fn lemma_rotated_is_permutation(w: Seq<u8>, w2: Seq<u8>, s: int)
    requires
        is_permutation(w),
        w2.len() == 26,
        0 <= s < 26,
        forall|i: int| 0 <= i < 26 ==> w2[i] == w[(i + s) % 26],
    ensures
        is_permutation(w2),
{
    assert forall|i: int, j: int| 0 <= i < 26 && 0 <= j < 26 && i != j implies w2[i] != w2[j] by {
        assert((i + s) % 26 != (j + s) % 26);
    }
    assert forall|j: int| 0 <= j < 26 implies #[trigger] has_preimage(w2, j) by {
        let p = preimage(w, j);
        lemma_preimage(w, j);
        let q = (p - s + 26) % 26;
        assert((q + s) % 26 == p);
        assert(w2[q] == j);
    }
}


/// The fixed wiring table of each historical rotor I..VIII, by its
/// numeric identifier; empty for an identifier outside 1..=8.
pub open spec fn rotor_wiring(id: int) -> Seq<u8> {
    if id == 1 {
        seq![4u8, 10u8, 12u8, 5u8, 11u8, 6u8, 3u8, 16u8, 21u8, 25u8, 13u8, 19u8, 14u8, 22u8, 24u8, 7u8, 23u8, 20u8, 18u8, 15u8, 0u8, 8u8, 1u8, 17u8, 2u8, 9u8]
    } else     if id == 2 {
        seq![0u8, 9u8, 3u8, 10u8, 18u8, 8u8, 17u8, 20u8, 23u8, 1u8, 11u8, 7u8, 22u8, 19u8, 12u8, 2u8, 16u8, 6u8, 25u8, 13u8, 15u8, 24u8, 5u8, 21u8, 14u8, 4u8]
    } else     if id == 3 {
        seq![1u8, 3u8, 5u8, 7u8, 9u8, 11u8, 2u8, 15u8, 17u8, 19u8, 23u8, 21u8, 25u8, 13u8, 24u8, 4u8, 8u8, 22u8, 6u8, 0u8, 10u8, 12u8, 20u8, 18u8, 16u8, 14u8]
    } else     if id == 4 {
        seq![4u8, 18u8, 14u8, 21u8, 15u8, 25u8, 9u8, 0u8, 24u8, 16u8, 20u8, 8u8, 17u8, 7u8, 23u8, 11u8, 13u8, 5u8, 19u8, 6u8, 10u8, 3u8, 2u8, 12u8, 22u8, 1u8]
    } else     if id == 5 {
        seq![21u8, 25u8, 1u8, 17u8, 6u8, 8u8, 19u8, 24u8, 20u8, 15u8, 18u8, 3u8, 13u8, 7u8, 11u8, 23u8, 0u8, 22u8, 12u8, 9u8, 16u8, 14u8, 5u8, 4u8, 2u8, 10u8]
    } else     if id == 6 {
        seq![9u8, 15u8, 6u8, 21u8, 14u8, 20u8, 12u8, 5u8, 24u8, 16u8, 1u8, 4u8, 13u8, 7u8, 25u8, 17u8, 3u8, 10u8, 0u8, 18u8, 23u8, 11u8, 8u8, 2u8, 19u8, 22u8]
    } else     if id == 7 {
        seq![13u8, 25u8, 9u8, 7u8, 6u8, 17u8, 2u8, 23u8, 12u8, 24u8, 18u8, 22u8, 1u8, 14u8, 20u8, 5u8, 0u8, 8u8, 21u8, 11u8, 15u8, 4u8, 10u8, 16u8, 3u8, 19u8]
    } else     if id == 8 {
        seq![5u8, 10u8, 16u8, 7u8, 19u8, 11u8, 23u8, 14u8, 2u8, 1u8, 9u8, 18u8, 15u8, 3u8, 25u8, 17u8, 0u8, 12u8, 4u8, 22u8, 13u8, 8u8, 20u8, 24u8, 6u8, 21u8]
    } else {
        Seq::empty()
    }
}

/// The notch positions of each historical rotor I..VIII.
pub open spec fn rotor_notches(id: int) -> Seq<u8> {
    if id == 1 {
        seq![17u8]
    } else     if id == 2 {
        seq![5u8]
    } else     if id == 3 {
        seq![22u8]
    } else     if id == 4 {
        seq![10u8]
    } else     if id == 5 {
        seq![0u8]
    } else     if id == 6 {
        seq![0u8, 13u8]
    } else     if id == 7 {
        seq![0u8, 13u8]
    } else     if id == 8 {
        seq![0u8, 13u8]
    } else {
        Seq::empty()
    }
}

impl Rotor {
    /// Historical rotor I, at face `A`.
    #[allow(non_snake_case)]
    pub fn Rotor_1() -> (r: Rotor)
        ensures
            r.wf(),
            r@.wiring == rotor_wiring(1),
            r@.notches == rotor_notches(1),
            r@.face == 0,
            r@.name == "I"@,
    {
        let wiring: Vec<u8> = vec![4, 10, 12, 5, 11, 6, 3, 16, 21, 25, 13, 19, 14, 22, 24, 7, 23, 20, 18, 15, 0, 8, 1, 17, 2, 9];
        let notches: Vec<u8> = vec![17];
        proof {
            assert(wiring@ =~= rotor_wiring(1));
            assert(notches@ =~= rotor_notches(1));
            assert(is_permutation(rotor_wiring(1)));
        }
        Rotor { wiring, notches, face: 0, name: String::from_str("I") }
    }

    /// Historical rotor II, at face `A`.
    #[allow(non_snake_case)]
    pub fn Rotor_2() -> (r: Rotor)
        ensures
            r.wf(),
            r@.wiring == rotor_wiring(2),
            r@.notches == rotor_notches(2),
            r@.face == 0,
            r@.name == "II"@,
    {
        let wiring: Vec<u8> = vec![0, 9, 3, 10, 18, 8, 17, 20, 23, 1, 11, 7, 22, 19, 12, 2, 16, 6, 25, 13, 15, 24, 5, 21, 14, 4];
        let notches: Vec<u8> = vec![5];
        proof {
            assert(wiring@ =~= rotor_wiring(2));
            assert(notches@ =~= rotor_notches(2));
            assert(is_permutation(rotor_wiring(2)));
        }
        Rotor { wiring, notches, face: 0, name: String::from_str("II") }
    }

    /// Historical rotor III, at face `A`.
    #[allow(non_snake_case)]
    pub fn Rotor_3() -> (r: Rotor)
        ensures
            r.wf(),
            r@.wiring == rotor_wiring(3),
            r@.notches == rotor_notches(3),
            r@.face == 0,
            r@.name == "III"@,
    {
        let wiring: Vec<u8> = vec![1, 3, 5, 7, 9, 11, 2, 15, 17, 19, 23, 21, 25, 13, 24, 4, 8, 22, 6, 0, 10, 12, 20, 18, 16, 14];
        let notches: Vec<u8> = vec![22];
        proof {
            assert(wiring@ =~= rotor_wiring(3));
            assert(notches@ =~= rotor_notches(3));
            assert(is_permutation(rotor_wiring(3)));
        }
        Rotor { wiring, notches, face: 0, name: String::from_str("III") }
    }

    /// Historical rotor IV, at face `A`.
    #[allow(non_snake_case)]
    pub fn Rotor_4() -> (r: Rotor)
        ensures
            r.wf(),
            r@.wiring == rotor_wiring(4),
            r@.notches == rotor_notches(4),
            r@.face == 0,
            r@.name == "IV"@,
    {
        let wiring: Vec<u8> = vec![4, 18, 14, 21, 15, 25, 9, 0, 24, 16, 20, 8, 17, 7, 23, 11, 13, 5, 19, 6, 10, 3, 2, 12, 22, 1];
        let notches: Vec<u8> = vec![10];
        proof {
            assert(wiring@ =~= rotor_wiring(4));
            assert(notches@ =~= rotor_notches(4));
            assert(is_permutation(rotor_wiring(4)));
        }
        Rotor { wiring, notches, face: 0, name: String::from_str("IV") }
    }

    /// Historical rotor V, at face `A`.
    #[allow(non_snake_case)]
    pub fn Rotor_5() -> (r: Rotor)
        ensures
            r.wf(),
            r@.wiring == rotor_wiring(5),
            r@.notches == rotor_notches(5),
            r@.face == 0,
            r@.name == "V"@,
    {
        let wiring: Vec<u8> = vec![21, 25, 1, 17, 6, 8, 19, 24, 20, 15, 18, 3, 13, 7, 11, 23, 0, 22, 12, 9, 16, 14, 5, 4, 2, 10];
        let notches: Vec<u8> = vec![0];
        proof {
            assert(wiring@ =~= rotor_wiring(5));
            assert(notches@ =~= rotor_notches(5));
            assert(is_permutation(rotor_wiring(5)));
        }
        Rotor { wiring, notches, face: 0, name: String::from_str("V") }
    }

    /// Historical rotor VI, at face `A`.
    #[allow(non_snake_case)]
    pub fn Rotor_6() -> (r: Rotor)
        ensures
            r.wf(),
            r@.wiring == rotor_wiring(6),
            r@.notches == rotor_notches(6),
            r@.face == 0,
            r@.name == "VI"@,
    {
        let wiring: Vec<u8> = vec![9, 15, 6, 21, 14, 20, 12, 5, 24, 16, 1, 4, 13, 7, 25, 17, 3, 10, 0, 18, 23, 11, 8, 2, 19, 22];
        let notches: Vec<u8> = vec![0, 13];
        proof {
            assert(wiring@ =~= rotor_wiring(6));
            assert(notches@ =~= rotor_notches(6));
            assert(is_permutation(rotor_wiring(6)));
        }
        Rotor { wiring, notches, face: 0, name: String::from_str("VI") }
    }

    /// Historical rotor VII, at face `A`.
    #[allow(non_snake_case)]
    pub fn Rotor_7() -> (r: Rotor)
        ensures
            r.wf(),
            r@.wiring == rotor_wiring(7),
            r@.notches == rotor_notches(7),
            r@.face == 0,
            r@.name == "VII"@,
    {
        let wiring: Vec<u8> = vec![13, 25, 9, 7, 6, 17, 2, 23, 12, 24, 18, 22, 1, 14, 20, 5, 0, 8, 21, 11, 15, 4, 10, 16, 3, 19];
        let notches: Vec<u8> = vec![0, 13];
        proof {
            assert(wiring@ =~= rotor_wiring(7));
            assert(notches@ =~= rotor_notches(7));
            assert(is_permutation(rotor_wiring(7)));
        }
        Rotor { wiring, notches, face: 0, name: String::from_str("VII") }
    }

    /// Historical rotor VIII, at face `A`.
    #[allow(non_snake_case)]
    pub fn Rotor_8() -> (r: Rotor)
        ensures
            r.wf(),
            r@.wiring == rotor_wiring(8),
            r@.notches == rotor_notches(8),
            r@.face == 0,
            r@.name == "VIII"@,
    {
        let wiring: Vec<u8> = vec![5, 10, 16, 7, 19, 11, 23, 14, 2, 1, 9, 18, 15, 3, 25, 17, 0, 12, 4, 22, 13, 8, 20, 24, 6, 21];
        let notches: Vec<u8> = vec![0, 13];
        proof {
            assert(wiring@ =~= rotor_wiring(8));
            assert(notches@ =~= rotor_notches(8));
            assert(is_permutation(rotor_wiring(8)));
        }
        Rotor { wiring, notches, face: 0, name: String::from_str("VIII") }
    }

}

/// The rotor for a numeric identifier 1..=8, or `UnknownRotorId`.
#[allow(non_snake_case)]
pub fn Rotors(rotor_type: i32) -> (r: Result<Rotor, EnigmaError>)
    ensures
        1 <= rotor_type <= 8 ==> r is Ok && r->Ok_0.wf()
            && r->Ok_0@.wiring == rotor_wiring(rotor_type as int)
            && r->Ok_0@.notches == rotor_notches(rotor_type as int)
            && r->Ok_0@.face == 0,
        !(1 <= rotor_type <= 8) ==> r == Err::<Rotor, EnigmaError>(EnigmaError::UnknownRotorId),
{
    match rotor_type {
        1 => Ok(Rotor::Rotor_1()),
        2 => Ok(Rotor::Rotor_2()),
        3 => Ok(Rotor::Rotor_3()),
        4 => Ok(Rotor::Rotor_4()),
        5 => Ok(Rotor::Rotor_5()),
        6 => Ok(Rotor::Rotor_6()),
        7 => Ok(Rotor::Rotor_7()),
        8 => Ok(Rotor::Rotor_8()),
        _ => Err(EnigmaError::UnknownRotorId),
    }
}


/// Rotor bijection, one half: a well-formed rotor's forward pass sends
/// distinct inputs to distinct outputs.
pub proof fn lemma_rotor_convert_injective(r: RotorV, i: int, j: int)
    requires
        r.wf(),
        0 <= i < 26,
        0 <= j < 26,
        i != j,
    ensures
        r.wiring[i] != r.wiring[j],
{
}

/// Rotor bijection, other half: every output position is produced by
/// some input, so the 26 inputs cover all 26 outputs.
pub proof fn lemma_rotor_convert_surjective(r: RotorV, j: int)
    requires
        r.wf(),
        0 <= j < 26,
    ensures
        has_preimage(r.wiring, j),
{
}

/// A full ring cycle: 26 single shifts return the wiring table to its
/// starting state. `w2` is related to `w1` exactly as
/// `apply_ring_offset(26)` relates the new wiring to the old.
pub proof fn lemma_full_ring_cycle(w1: Seq<u8>, w2: Seq<u8>)
    requires
        w1.len() == 26,
        w2.len() == 26,
        forall|i: int| 0 <= i < 26 ==> w2[i] == w1[(i + 26) % 26],
    ensures
        w2 == w1,
{
    assert forall|i: int| 0 <= i < 26 implies w2[i] == w1[i] by {
        assert((i + 26) % 26 == i);
    }
    assert(w2 =~= w1);
}

} // verus!
