//! Reflectors: the fixed involutive permutation that turns the signal
//! back through the rotor stack.
//!
//! A reflector pairs the 26 contacts with no contact wired to itself,
//! and never moves.

use vstd::prelude::*;

use crate::alphabet::{alpha_index, is_letter, letter_index, symbol_at};
use crate::error::EnigmaError;
use crate::wiring::{is_involution, no_fixed_points};

verus! {

/// The mathematical content of a reflector: its pairing table and its
/// variant tag.
pub ghost struct ReflectorV {
    pub table: Seq<u8>,
    pub name: char,
}

impl ReflectorV {
    /// A valid reflector: an involution over the 26 contacts with no
    /// fixed points.
    pub open spec fn wf(self) -> bool {
        &&& is_involution(self.table)
        &&& no_fixed_points(self.table)
    }
}

/// One reflector of the machine.
#[derive(Clone)]
pub struct Reflector {
    conversions: Vec<u8>,
    name: char,
}

impl View for Reflector {
    type V = ReflectorV;

    closed spec fn view(&self) -> ReflectorV {
        ReflectorV { table: self.conversions@, name: self.name }
    }
}

/// The pairing table of reflector `B`.
pub open spec fn reflector_b_table() -> Seq<u8> {
    seq![24u8, 17u8, 20u8, 7u8, 16u8, 18u8, 11u8, 3u8, 15u8, 23u8, 13u8, 6u8, 14u8, 10u8, 12u8,
        8u8, 4u8, 1u8, 5u8, 25u8, 2u8, 22u8, 21u8, 9u8, 0u8, 19u8]
}

/// The pairing table of reflector `C`.
pub open spec fn reflector_c_table() -> Seq<u8> {
    seq![5u8, 21u8, 15u8, 9u8, 8u8, 0u8, 14u8, 24u8, 4u8, 3u8, 17u8, 25u8, 23u8, 22u8, 6u8, 2u8,
        19u8, 10u8, 20u8, 16u8, 18u8, 1u8, 13u8, 12u8, 7u8, 11u8]
}

/// The pairing table of the reflector for a tag, `B` or `C`.
pub open spec fn reflector_table(tag: char) -> Seq<u8> {
    if tag == 'B' {
        reflector_b_table()
    } else if tag == 'C' {
        reflector_c_table()
    } else {
        Seq::empty()
    }
}

impl Reflector {
    /// A valid reflector (see `ReflectorV::wf`).
    pub open spec fn wf(self) -> bool {
        self@.wf()
    }

    /// The table lookup for a contact index.
    pub(crate) fn map_index(&self, i: u8) -> (r: u8)
        requires
            self.wf(),
            i < 26,
        ensures
            r == self@.table[i as int],
            r < 26,
    {
        self.conversions[i as usize]
    }

    /// The letter paired with the given letter.
    pub fn convert(&self, letter: char) -> (r: Result<char, EnigmaError>)
        requires
            self.wf(),
        ensures
            is_letter(letter) ==> r is Ok && is_letter(r->Ok_0)
                && letter_index(r->Ok_0) == self@.table[letter_index(letter)],
            !is_letter(letter) ==> r == Err::<char, EnigmaError>(EnigmaError::InvalidSymbol),
    {
        match alpha_index(letter) {
            Ok(pos) => Ok(symbol_at(self.map_index(pos as u8) as usize)),
            Err(e) => Err(e),
        }
    }

    /// Reflector `B`.
    #[allow(non_snake_case)]
    pub fn Reflector_B() -> (r: Reflector)
        ensures
            r.wf(),
            r@.table == reflector_b_table(),
            r@.name == 'B',
    {
        let conversions: Vec<u8> = vec![24, 17, 20, 7, 16, 18, 11, 3, 15, 23, 13, 6, 14, 10, 12,
            8, 4, 1, 5, 25, 2, 22, 21, 9, 0, 19];
        proof {
            assert(conversions@ =~= reflector_b_table());
            assert(is_involution(reflector_b_table()));
            assert(no_fixed_points(reflector_b_table()));
        }
        Reflector { conversions, name: 'B' }
    }

    /// Reflector `C`.
    #[allow(non_snake_case)]
    pub fn Reflector_C() -> (r: Reflector)
        ensures
            r.wf(),
            r@.table == reflector_c_table(),
            r@.name == 'C',
    {
        let conversions: Vec<u8> = vec![5, 21, 15, 9, 8, 0, 14, 24, 4, 3, 17, 25, 23, 22, 6, 2,
            19, 10, 20, 16, 18, 1, 13, 12, 7, 11];
        proof {
            assert(conversions@ =~= reflector_c_table());
            assert(is_involution(reflector_c_table()));
            assert(no_fixed_points(reflector_c_table()));
        }
        Reflector { conversions, name: 'C' }
    }
}

/// The reflector for a tag `B` or `C`, or `UnknownReflectorTag`.
#[allow(non_snake_case)]
pub fn Reflectors(reflector_type: char) -> (r: Result<Reflector, EnigmaError>)
    ensures
        (reflector_type == 'B' || reflector_type == 'C') ==> r is Ok && r->Ok_0.wf()
            && r->Ok_0@.table == reflector_table(reflector_type)
            && r->Ok_0@.name == reflector_type,
        !(reflector_type == 'B' || reflector_type == 'C')
            ==> r == Err::<Reflector, EnigmaError>(EnigmaError::UnknownReflectorTag),
{
    match reflector_type {
        'B' => Ok(Reflector::Reflector_B()),
        'C' => Ok(Reflector::Reflector_C()),
        _ => Err(EnigmaError::UnknownReflectorTag),
    }
}

/// No letter reflects to itself: the reflector's pairing has no fixed
/// points, so a letter never enciphers to itself through the machine.
pub proof fn lemma_reflector_no_fixed_point(r: ReflectorV, i: int)
    requires
        r.wf(),
        0 <= i < 26,
    ensures
        r.table[i] != i,
{
}

/// Reflecting twice returns to the starting letter: the pairing is an
/// involution.
pub proof fn lemma_reflector_involution(r: ReflectorV, i: int)
    requires
        r.wf(),
        0 <= i < 26,
    ensures
        r.table[r.table[i] as int] == i,
{
}

} // verus!
