//! The machine: an ordered stack of labelled rotors, one reflector and
//! one plugboard, with keying, ring setting, and letter and phrase
//! encipherment.

use vstd::prelude::*;

use crate::alphabet::{alpha_index, is_letter, is_space, is_space_char, lemma_letter_of_index,
    letter_index, letter_of, spec_upper, symbol_at, to_upper};
use crate::error::EnigmaError;
use crate::plugboard::{default_plugboard, Plugboard};
use crate::reflector::{reflector_table, Reflector, ReflectorV, Reflectors};
use crate::rotor::{rotor_notches, rotor_wiring, Rotor, RotorV, Rotors};
use crate::signal::{bwd_signal, cipher_path, cipher_stream, fwd_signal, rotors_wf, shift,
    step_rotors, stepped_n};
use crate::wiring::is_involution;

verus! {

/// The mathematical content of a machine: its type tag, the rotor
/// identifiers it was built from, the rotor stack in label order (left
/// to right), the position labels, and the two fixed wirings.
pub ghost struct EnigmaV {
    pub enigma_type: Seq<char>,
    pub rotor_ids: Seq<i32>,
    pub rotors: Seq<RotorV>,
    pub rotor_labels: Seq<Seq<char>>,
    pub reflector: ReflectorV,
    pub plugboard: Seq<u8>,
}

/// The position labels of a three-rotor machine.
pub open spec fn m3_labels() -> Seq<Seq<char>> {
    seq!["left"@, "middle"@, "right"@]
}

/// The position labels of a four-rotor machine.
pub open spec fn m4_labels() -> Seq<Seq<char>> {
    seq!["left"@, "middle left"@, "middle right"@, "right"@]
}

impl EnigmaV {
    /// A valid machine: the rotor count and labels match the machine
    /// type, and every component is well formed.
    pub open spec fn wf(self) -> bool {
        &&& (self.enigma_type == "M3"@ && self.rotors.len() == 3
                && self.rotor_labels == m3_labels())
            || (self.enigma_type == "M4"@ && self.rotors.len() == 4
                && self.rotor_labels == m4_labels())
        &&& rotors_wf(self.rotors)
        &&& self.reflector.wf()
        &&& is_involution(self.plugboard)
        &&& self.rotor_ids.len() == self.rotors.len()
    }
}

/// The label names some rotor position of the machine.
pub open spec fn has_label(m: EnigmaV, l: Seq<char>) -> bool {
    exists|i: int| 0 <= i < m.rotor_labels.len() && #[trigger] m.rotor_labels[i] == l
}

/// The rotor position a label names.
pub open spec fn label_pos(m: EnigmaV, l: Seq<char>) -> int {
    choose|i: int| 0 <= i < m.rotor_labels.len() && #[trigger] m.rotor_labels[i] == l
}

/// A machine's labels are pairwise distinct, so `label_pos` is the one
/// position whose label matches.
pub proof fn lemma_labels_distinct(m: EnigmaV)
    requires
        m.wf(),
    ensures
        forall|i: int, j: int|
            0 <= i < m.rotor_labels.len() && 0 <= j < m.rotor_labels.len() && i != j
                ==> m.rotor_labels[i] != m.rotor_labels[j],
{
    reveal_strlit("left");
    reveal_strlit("middle");
    reveal_strlit("right");
    reveal_strlit("middle left");
    reveal_strlit("middle right");
    assert("left"@.len() == 4 && "middle"@.len() == 6 && "right"@.len() == 5
        && "middle left"@.len() == 11 && "middle right"@.len() == 12);
    if m.rotor_labels == m3_labels() {
        assert(m.rotor_labels[0] == "left"@ && m.rotor_labels[1] == "middle"@
            && m.rotor_labels[2] == "right"@);
    } else {
        assert(m.rotor_labels[0] == "left"@ && m.rotor_labels[1] == "middle left"@
            && m.rotor_labels[2] == "middle right"@ && m.rotor_labels[3] == "right"@);
    }
}

/// For a label the machine has, `label_pos` is in range, matches, and
/// is unique.
pub proof fn lemma_label_pos(m: EnigmaV, l: Seq<char>)
    requires
        m.wf(),
        has_label(m, l),
    ensures
        0 <= label_pos(m, l) < m.rotor_labels.len(),
        m.rotor_labels[label_pos(m, l)] == l,
        m.rotor_labels.len() == m.rotors.len(),
        forall|i: int| 0 <= i < m.rotor_labels.len() && #[trigger] m.rotor_labels[i] == l
            ==> i == label_pos(m, l),
{
    lemma_labels_distinct(m);
}

/// How many rotors a machine type takes.
pub open spec fn spec_rotor_count(t: Seq<char>) -> int {
    if t == "M3"@ {
        3
    } else {
        4
    }
}

/// Every rotor identifier is one of the historical rotors 1..=8.
pub open spec fn valid_rotor_ids(ids: Seq<i32>) -> bool {
    forall|i: int| 0 <= i < ids.len() ==> 1 <= #[trigger] ids[i] <= 8
}

/// The two machine type tags are distinct.
proof fn lemma_type_tags_distinct()
    ensures
        "M3"@ != "M4"@,
{
    reveal_strlit("M3");
    reveal_strlit("M4");
    assert("M3"@[1] == '3' && "M4"@[1] == '4');
}


/// The second rotor is the first with its wiring cyclically shifted by
/// `n`, everything else unchanged.
pub open spec fn ring_applied(r1: RotorV, r0: RotorV, n: int) -> bool {
    &&& forall|j: int| 0 <= j < 26 ==> #[trigger] r1.wiring[j] == r0.wiring[(j + n) % 26]
    &&& r1.face == r0.face
    &&& r1.notches == r0.notches
    &&& r1.name == r0.name
}

/// One Enigma machine.
#[derive(Clone)]
pub struct Enigma {
    enigma_type: String,
    rotor_ids: Vec<i32>,
    rotors: Vec<Rotor>,
    rotor_labels: Vec<String>,
    reflector: Reflector,
    plugboard: Plugboard,
}

impl View for Enigma {
    type V = EnigmaV;

    closed spec fn view(&self) -> EnigmaV {
        EnigmaV {
            enigma_type: self.enigma_type@,
            rotor_ids: self.rotor_ids@,
            rotors: self.rotors@.map_values(|r: Rotor| r@),
            rotor_labels: self.rotor_labels@.map_values(|l: String| l@),
            reflector: self.reflector@,
            plugboard: self.plugboard@,
        }
    }
}

impl Enigma {
    /// A valid machine (see `EnigmaV::wf`).
    pub open spec fn wf(self) -> bool {
        self@.wf()
    }

    /// Build a machine from rotor identifiers, a reflector tag and a
    /// machine type tag. The type tag fixes the rotor count and the
    /// position labels; rotors and reflector are built from their
    /// identifiers; the plugboard starts at its default wiring, and
    /// every rotor at face `A`.
    #[verifier::loop_isolation(false)]
    pub fn new(rotor_list: Vec<i32>, reflector: char, enigma_type: String)
        -> (r: Result<Enigma, EnigmaError>)
        ensures
            !(enigma_type@ == "M3"@ || enigma_type@ == "M4"@)
                ==> r == Err::<Enigma, EnigmaError>(EnigmaError::UnknownMachineType),
            (enigma_type@ == "M3"@ || enigma_type@ == "M4"@)
                && rotor_list@.len() != spec_rotor_count(enigma_type@)
                ==> r == Err::<Enigma, EnigmaError>(EnigmaError::RotorCountMismatch),
            (enigma_type@ == "M3"@ || enigma_type@ == "M4"@)
                && rotor_list@.len() == spec_rotor_count(enigma_type@)
                && !valid_rotor_ids(rotor_list@)
                ==> r == Err::<Enigma, EnigmaError>(EnigmaError::UnknownRotorId),
            (enigma_type@ == "M3"@ || enigma_type@ == "M4"@)
                && rotor_list@.len() == spec_rotor_count(enigma_type@)
                && valid_rotor_ids(rotor_list@)
                && !(reflector == 'B' || reflector == 'C')
                ==> r == Err::<Enigma, EnigmaError>(EnigmaError::UnknownReflectorTag),
            (enigma_type@ == "M3"@ || enigma_type@ == "M4"@)
                && rotor_list@.len() == spec_rotor_count(enigma_type@)
                && valid_rotor_ids(rotor_list@)
                && (reflector == 'B' || reflector == 'C')
                ==> r is Ok && {
                    let m = r->Ok_0@;
                    &&& r->Ok_0.wf()
                    &&& m.enigma_type == enigma_type@
                    &&& m.rotor_ids == rotor_list@
                    &&& m.rotors.len() == rotor_list@.len()
                    &&& forall|i: int| 0 <= i < m.rotors.len()
                        ==> (#[trigger] m.rotors[i]).wiring == rotor_wiring(rotor_list@[i] as int)
                            && m.rotors[i].notches == rotor_notches(rotor_list@[i] as int)
                            && m.rotors[i].face == 0
                    &&& m.reflector.table == reflector_table(reflector)
                    &&& m.reflector.name == reflector
                    &&& m.plugboard == default_plugboard()
                },
    {
        proof {
            lemma_type_tags_distinct();
        }
        let is_m3 = enigma_type == String::from_str("M3");
        let is_m4 = enigma_type == String::from_str("M4");
        if !is_m3 && !is_m4 {
            return Err(EnigmaError::UnknownMachineType);
        }
        let need: usize = if is_m3 {
            3
        } else {
            4
        };
        if rotor_list.len() != need {
            return Err(EnigmaError::RotorCountMismatch);
        }
        let mut rotors: Vec<Rotor> = Vec::new();
        let mut k: usize = 0;
        while k < rotor_list.len()
            invariant
                k <= rotor_list@.len(),
                rotors@.len() == k,
                forall|i: int| 0 <= i < k ==> 1 <= #[trigger] rotor_list@[i] <= 8,
                forall|i: int| 0 <= i < k ==> (#[trigger] rotors@[i])@.wiring
                        == rotor_wiring(rotor_list@[i] as int)
                    && rotors@[i]@.notches == rotor_notches(rotor_list@[i] as int)
                    && rotors@[i]@.face == 0 && rotors@[i].wf(),
            decreases rotor_list@.len() - k,
        {
            match Rotors(rotor_list[k]) {
                Ok(rt) => rotors.push(rt),
                Err(e) => {
                    proof {
                        assert(!(1 <= rotor_list@[k as int] <= 8));
                        assert(!valid_rotor_ids(rotor_list@));
                    }
                    return Err(e);
                },
            }
            k += 1;
        }
        let refl = match Reflectors(reflector) {
            Ok(rf) => rf,
            Err(e) => {
                return Err(e);
            },
        };
        let mut rotor_labels: Vec<String> = Vec::new();
        if is_m3 {
            rotor_labels.push(String::from_str("left"));
            rotor_labels.push(String::from_str("middle"));
            rotor_labels.push(String::from_str("right"));
            proof {
                assert(rotor_labels@.map_values(|l: String| l@) =~= m3_labels());
            }
        } else {
            rotor_labels.push(String::from_str("left"));
            rotor_labels.push(String::from_str("middle left"));
            rotor_labels.push(String::from_str("middle right"));
            rotor_labels.push(String::from_str("right"));
            proof {
                assert(rotor_labels@.map_values(|l: String| l@) =~= m4_labels());
            }
        }
        let m = Enigma {
            enigma_type,
            rotor_ids: rotor_list,
            rotors,
            rotor_labels,
            reflector: refl,
            plugboard: Plugboard::new(),
        };
        proof {
            assert(rotors_wf(m@.rotors)) by {
                assert(forall|i: int| 0 <= i < m@.rotors.len()
                    ==> #[trigger] m@.rotors[i] == m.rotors@[i]@);
            }
        }
        Ok(m)
    }

    /// The position of the rotor a label names.
    #[verifier::loop_isolation(false)]
    fn rotor_index(&self, label: &String) -> (r: usize)
        requires
            self.wf(),
            has_label(self@, label@),
        ensures
            r as int == label_pos(self@, label@),
            r < self@.rotors.len(),
    {
        proof {
            lemma_label_pos(self@, label@);
        }
        let mut k: usize = 0;
        while k < self.rotor_labels.len()
            invariant
                k <= self@.rotor_labels.len(),
                self@.rotor_labels.len() == self.rotor_labels@.len(),
                forall|j: int| 0 <= j < k ==> #[trigger] self@.rotor_labels[j] != label@,
                forall|j: int| 0 <= j < self.rotor_labels@.len()
                    ==> #[trigger] self@.rotor_labels[j] == self.rotor_labels@[j]@,
            decreases self.rotor_labels@.len() - k,
        {
            if self.rotor_labels[k] == *label {
                proof {
                    assert(self@.rotor_labels[k as int] == label@);
                    lemma_label_pos(self@, label@);
                }
                return k;
            }
            k += 1;
        }
        proof {
            assert(self@.rotor_labels[label_pos(self@, label@)] == label@);
            assert(false);
        }
        0
    }

    /// Forward pass through the rotor at a labelled position.
    pub fn rotor_conv(&self, rotor: &String, letter: char) -> (r: Result<char, EnigmaError>)
        requires
            self.wf(),
            has_label(self@, rotor@),
        ensures
            is_letter(letter) ==> r is Ok && is_letter(r->Ok_0)
                && letter_index(r->Ok_0)
                    == self@.rotors[label_pos(self@, rotor@)].wiring[letter_index(letter)],
            !is_letter(letter) ==> r == Err::<char, EnigmaError>(EnigmaError::InvalidSymbol),
    {
        let i = self.rotor_index(rotor);
        proof {
            assert(self.rotors@[i as int]@ == self@.rotors[i as int]);
        }
        self.rotors[i].convert(letter)
    }

    /// Reverse pass through the rotor at a labelled position.
    pub fn rotor_conv_inv(&self, rotor: &String, letter: char) -> (r: Result<char, EnigmaError>)
        requires
            self.wf(),
            has_label(self@, rotor@),
        ensures
            is_letter(letter) ==> r is Ok && is_letter(r->Ok_0)
                && letter_index(r->Ok_0)
                    == crate::wiring::preimage(self@.rotors[label_pos(self@, rotor@)].wiring,
                        letter_index(letter)),
            !is_letter(letter) ==> r == Err::<char, EnigmaError>(EnigmaError::InvalidSymbol),
    {
        let i = self.rotor_index(rotor);
        proof {
            assert(self.rotors@[i as int]@ == self@.rotors[i as int]);
        }
        self.rotors[i].convert_inv(letter)
    }

    /// One pass through the reflector.
    pub fn reflector_conv(&self, letter: char) -> (r: Result<char, EnigmaError>)
        requires
            self.wf(),
        ensures
            is_letter(letter) ==> r is Ok && is_letter(r->Ok_0)
                && letter_index(r->Ok_0) == self@.reflector.table[letter_index(letter)],
            !is_letter(letter) ==> r == Err::<char, EnigmaError>(EnigmaError::InvalidSymbol),
    {
        self.reflector.convert(letter)
    }

    /// One pass through the plugboard.
    pub fn plugboard_conv(&self, letter: char) -> (r: Result<char, EnigmaError>)
        requires
            self.wf(),
        ensures
            is_letter(letter) ==> r is Ok && is_letter(r->Ok_0)
                && letter_index(r->Ok_0) == self@.plugboard[letter_index(letter)],
            !is_letter(letter) ==> r == Err::<char, EnigmaError>(EnigmaError::InvalidSymbol),
    {
        self.plugboard.convert(letter)
    }

    /// The inverse pass through the plugboard; for an involution, the
    /// same letter as the forward pass.
    pub fn plugboard_conv_inv(&self, letter: char) -> (r: Result<char, EnigmaError>)
        requires
            self.wf(),
        ensures
            is_letter(letter) ==> r is Ok && is_letter(r->Ok_0)
                && letter_index(r->Ok_0) == self@.plugboard[letter_index(letter)],
            !is_letter(letter) ==> r == Err::<char, EnigmaError>(EnigmaError::InvalidSymbol),
    {
        self.plugboard.convert_inv(letter)
    }

    /// The inter-rotor offset correction between two labelled rotors:
    /// the letter's contact, shifted by the difference of the two
    /// rotors' face positions.
    pub fn inter_rotor_conv(&self, rotor_1: &String, rotor_2: &String, letter: char)
        -> (r: Result<char, EnigmaError>)
        requires
            self.wf(),
            has_label(self@, rotor_1@),
            has_label(self@, rotor_2@),
        ensures
            is_letter(letter) ==> r is Ok && is_letter(r->Ok_0)
                && letter_index(r->Ok_0) == shift(
                    self@.rotors[label_pos(self@, rotor_1@)].face as int,
                    self@.rotors[label_pos(self@, rotor_2@)].face as int,
                    letter_index(letter)),
            !is_letter(letter) ==> r == Err::<char, EnigmaError>(EnigmaError::InvalidSymbol),
    {
        match alpha_index(letter) {
            Ok(pos) => {
                let i1 = self.rotor_index(rotor_1);
                let i2 = self.rotor_index(rotor_2);
                proof {
                    assert(self.rotors@[i1 as int]@ == self@.rotors[i1 as int]);
                    assert(self.rotors@[i2 as int]@ == self@.rotors[i2 as int]);
                }
                let f1 = self.rotors[i1].face_index();
                let f2 = self.rotors[i2].face_index();
                Ok(symbol_at(shift_index(f1, f2, pos as u8) as usize))
            },
            Err(e) => Err(e),
        }
    }
    /// Step the rotor at a position the given number of times.
    #[verifier::loop_isolation(false)]
    fn move_rotor(&mut self, idx: usize, amount: u32)
        requires
            old(self).wf(),
            idx < old(self)@.rotors.len(),
        ensures
            final(self).wf(),
            final(self)@.rotors.len() == old(self)@.rotors.len(),
            final(self)@.rotors[idx as int].face as int
                == (old(self)@.rotors[idx as int].face + amount) % 26,
            final(self)@.rotors[idx as int].wiring == old(self)@.rotors[idx as int].wiring,
            final(self)@.rotors[idx as int].notches == old(self)@.rotors[idx as int].notches,
            final(self)@.rotors[idx as int].name == old(self)@.rotors[idx as int].name,
            forall|i: int| 0 <= i < old(self)@.rotors.len() && i != idx
                ==> final(self)@.rotors[i] == old(self)@.rotors[i],
            final(self)@.enigma_type == old(self)@.enigma_type,
            final(self)@.rotor_ids == old(self)@.rotor_ids,
            final(self)@.rotor_labels == old(self)@.rotor_labels,
            final(self)@.reflector == old(self)@.reflector,
            final(self)@.plugboard == old(self)@.plugboard,
    {
        let mut j: u32 = 0;
        while j < amount
            invariant
                j <= amount,
                self@.rotors.len() == old(self)@.rotors.len(),
                self@.rotors[idx as int].face as int
                    == (old(self)@.rotors[idx as int].face + j) % 26,
                self@.rotors[idx as int].wiring == old(self)@.rotors[idx as int].wiring,
                self@.rotors[idx as int].notches == old(self)@.rotors[idx as int].notches,
                self@.rotors[idx as int].name == old(self)@.rotors[idx as int].name,
                forall|i: int| 0 <= i < old(self)@.rotors.len() && i != idx
                    ==> self@.rotors[i] == old(self)@.rotors[i],
                self@.enigma_type == old(self)@.enigma_type,
                self@.rotor_ids == old(self)@.rotor_ids,
                self@.rotor_labels == old(self)@.rotor_labels,
                self@.reflector == old(self)@.reflector,
                self@.plugboard == old(self)@.plugboard,
            decreases amount - j,
        {
            proof {
                assert(self.rotors@[idx as int]@ == self@.rotors[idx as int]);
            }
            self.rotors[idx].rotate(None);
            proof {
                let f0 = old(self)@.rotors[idx as int].face as int;
                vstd::arithmetic::div_mod::lemma_add_mod_noop_right(1, f0 + j, 26);
            }
            j += 1;
        }
    }

    /// Turn the rotor at a position until its face shows the target
    /// contact, by repeated single steps.
    fn set_rotor(&mut self, idx: usize, target: u8)
        requires
            old(self).wf(),
            idx < old(self)@.rotors.len(),
            target < 26,
        ensures
            final(self).wf(),
            final(self)@.rotors.len() == old(self)@.rotors.len(),
            final(self)@.rotors[idx as int].face == target,
            final(self)@.rotors[idx as int].wiring == old(self)@.rotors[idx as int].wiring,
            final(self)@.rotors[idx as int].notches == old(self)@.rotors[idx as int].notches,
            final(self)@.rotors[idx as int].name == old(self)@.rotors[idx as int].name,
            forall|i: int| 0 <= i < old(self)@.rotors.len() && i != idx
                ==> final(self)@.rotors[i] == old(self)@.rotors[i],
            final(self)@.enigma_type == old(self)@.enigma_type,
            final(self)@.rotor_ids == old(self)@.rotor_ids,
            final(self)@.rotor_labels == old(self)@.rotor_labels,
            final(self)@.reflector == old(self)@.reflector,
            final(self)@.plugboard == old(self)@.plugboard,
    {
        proof {
            assert(self.rotors@[idx as int]@ == self@.rotors[idx as int]);
        }
        let cur = self.rotors[idx].face_index();
        let steps: u8 = if target >= cur {
            target - cur
        } else {
            (target + 26) - cur
        };
        self.move_rotor(idx, steps as u32);
        proof {
            assert((cur + steps) % 26 == target);
        }
    }

    /// Key the machine: for each rotor position in label order, turn
    /// that rotor by single steps until its face shows the key letter.
    /// The key must hold one letter per rotor.
    #[verifier::loop_isolation(false)]
    pub fn set_key(&mut self, user_key: String) -> (r: Result<(), EnigmaError>)
        requires
            old(self).wf(),
            forall|i: int| 0 <= i < user_key@.len()
                ==> is_letter(spec_upper(#[trigger] user_key@[i])),
        ensures
            user_key@.len() != old(self)@.rotors.len()
                ==> r == Err::<(), EnigmaError>(EnigmaError::KeyLengthMismatch)
                    && final(self)@ == old(self)@,
            user_key@.len() == old(self)@.rotors.len() ==> r is Ok && final(self).wf()
                && final(self)@.rotors.len() == old(self)@.rotors.len()
                && (forall|i: int| 0 <= i < old(self)@.rotors.len()
                    ==> (#[trigger] final(self)@.rotors[i]).face as int
                            == letter_index(spec_upper(user_key@[i]))
                        && final(self)@.rotors[i].wiring == old(self)@.rotors[i].wiring
                        && final(self)@.rotors[i].notches == old(self)@.rotors[i].notches
                        && final(self)@.rotors[i].name == old(self)@.rotors[i].name)
                && final(self)@.enigma_type == old(self)@.enigma_type
                && final(self)@.rotor_ids == old(self)@.rotor_ids
                && final(self)@.rotor_labels == old(self)@.rotor_labels
                && final(self)@.reflector == old(self)@.reflector
                && final(self)@.plugboard == old(self)@.plugboard,
    {
        if user_key.as_str().unicode_len() != self.rotors.len() {
            return Err(EnigmaError::KeyLengthMismatch);
        }
        let mut k: usize = 0;
        while k < self.rotors.len()
            invariant
                k <= old(self)@.rotors.len(),
                self.wf(),
                self@.rotors.len() == old(self)@.rotors.len(),
                forall|i: int| 0 <= i < k
                    ==> (#[trigger] self@.rotors[i]).face as int
                        == letter_index(spec_upper(user_key@[i])),
                forall|i: int| 0 <= i < old(self)@.rotors.len()
                    ==> (#[trigger] self@.rotors[i]).wiring == old(self)@.rotors[i].wiring
                        && self@.rotors[i].notches == old(self)@.rotors[i].notches
                        && self@.rotors[i].name == old(self)@.rotors[i].name,
                forall|i: int| k <= i < old(self)@.rotors.len()
                    ==> #[trigger] self@.rotors[i] == old(self)@.rotors[i],
                self@.enigma_type == old(self)@.enigma_type,
                self@.rotor_ids == old(self)@.rotor_ids,
                self@.rotor_labels == old(self)@.rotor_labels,
                self@.reflector == old(self)@.reflector,
                self@.plugboard == old(self)@.plugboard,
            decreases old(self)@.rotors.len() - k,
        {
            let c = user_key.as_str().get_char(k);
            let u = to_upper(c);
            let t = match alpha_index(u) {
                Ok(p) => p,
                Err(_) => {
                    proof {
                        assert(false);
                    }
                    0
                },
            };
            self.set_rotor(k, t as u8);
            k += 1;
        }
        Ok(())
    }

    /// Apply the ring settings: the rotor at each position has its
    /// wiring table cyclically shifted by the offset given for that
    /// position, one offset per rotor.
    #[verifier::loop_isolation(false)]
    pub fn ringstellung(&mut self, rsg_vec: Vec<i32>)
        requires
            old(self).wf(),
            rsg_vec@.len() == old(self)@.rotors.len(),
            forall|i: int| 0 <= i < rsg_vec@.len() ==> 0 <= #[trigger] rsg_vec@[i],
        ensures
            final(self).wf(),
            final(self)@.rotors.len() == old(self)@.rotors.len(),
            forall|i: int| 0 <= i < old(self)@.rotors.len()
                ==> ring_applied(#[trigger] final(self)@.rotors[i], old(self)@.rotors[i],
                    rsg_vec@[i] as int),
            final(self)@.enigma_type == old(self)@.enigma_type,
            final(self)@.rotor_ids == old(self)@.rotor_ids,
            final(self)@.rotor_labels == old(self)@.rotor_labels,
            final(self)@.reflector == old(self)@.reflector,
            final(self)@.plugboard == old(self)@.plugboard,
    {
        let mut k: usize = 0;
        while k < rsg_vec.len()
            invariant
                k <= old(self)@.rotors.len(),
                self.wf(),
                self@.rotors.len() == old(self)@.rotors.len(),
                forall|i: int| 0 <= i < k
                    ==> ring_applied(#[trigger] self@.rotors[i], old(self)@.rotors[i],
                        rsg_vec@[i] as int),
                forall|i: int| k <= i < old(self)@.rotors.len()
                    ==> #[trigger] self@.rotors[i] == old(self)@.rotors[i],
                self@.enigma_type == old(self)@.enigma_type,
                self@.rotor_ids == old(self)@.rotor_ids,
                self@.rotor_labels == old(self)@.rotor_labels,
                self@.reflector == old(self)@.reflector,
                self@.plugboard == old(self)@.plugboard,
            decreases old(self)@.rotors.len() - k,
        {
            let amt = rsg_vec[k];
            proof {
                assert(self.rotors@[k as int]@ == self@.rotors[k as int]);
            }
            let ghost prev = self@.rotors;
            self.rotors[k].apply_ring_offset(amt as usize);
            proof {
                assert forall|i: int| 0 <= i < prev.len() && i != k as int
                    implies self@.rotors[i] == prev[i] by {
                    assert(self.rotors@[i]@ == self@.rotors[i]);
                }
                assert(self.rotors@[k as int]@ == self@.rotors[k as int]);
                assert(amt as usize as int == rsg_vec@[k as int] as int);
                assert(ring_applied(self@.rotors[k as int], old(self)@.rotors[k as int],
                    rsg_vec@[k as int] as int));
                assert forall|i: int| 0 <= i < k
                    implies ring_applied(#[trigger] self@.rotors[i], old(self)@.rotors[i],
                        rsg_vec@[i] as int) by {
                    assert(self@.rotors[i] == prev[i]);
                }
                assert forall|i: int| k as int + 1 <= i < self@.rotors.len()
                    implies #[trigger] self@.rotors[i] == old(self)@.rotors[i] by {
                    assert(self@.rotors[i] == prev[i]);
                    assert(prev[i] == old(self)@.rotors[i]);
                }
                assert(rotors_wf(self@.rotors)) by {
                    assert forall|i: int| 0 <= i < self@.rotors.len()
                        implies (#[trigger] self@.rotors[i]).wf() by {
                        if i != k as int {
                            assert(prev[i].wf());
                        }
                    }
                }
            }
            k += 1;
        }
    }

    /// The forward pass through the whole rotor stack, rightmost rotor
    /// first, with the inter-rotor shift at every boundary.
    #[verifier::loop_isolation(false)]
    fn signal_forward(&self, start: u8) -> (r: u8)
        requires
            self.wf(),
            start < 26,
        ensures
            r as int == fwd_signal(self@.rotors, self@.rotors.len() - 1, start as int),
            r < 26,
    {
        let n = self.rotors.len();
        let mut k = n - 1;
        let mut cur = start;
        while k > 0
            invariant
                k < n,
                cur < 26,
                fwd_signal(self@.rotors, n - 1, start as int)
                    == fwd_signal(self@.rotors, k as int, cur as int),
            decreases k,
        {
            proof {
                assert(self.rotors@[k as int]@ == self@.rotors[k as int]);
                assert(self.rotors@[k as int - 1]@ == self@.rotors[k as int - 1]);
            }
            let w = self.rotors[k].wire_index(cur);
            let fk = self.rotors[k].face_index();
            let fk1 = self.rotors[k - 1].face_index();
            cur = shift_index(fk, fk1, w);
            k -= 1;
        }
        proof {
            assert(self.rotors@[0]@ == self@.rotors[0]);
        }
        self.rotors[0].wire_index(cur)
    }

    /// The return pass through the whole rotor stack, leftmost rotor
    /// first, inverting each wiring, with the inter-rotor shift at every
    /// boundary.
    #[verifier::loop_isolation(false)]
    fn signal_backward(&self, start: u8) -> (r: u8)
        requires
            self.wf(),
            start < 26,
        ensures
            r as int == bwd_signal(self@.rotors, 0, start as int),
            r < 26,
    {
        let n = self.rotors.len();
        let mut k: usize = 0;
        let mut cur = start;
        while k < n - 1
            invariant
                k < n,
                cur < 26,
                bwd_signal(self@.rotors, 0, start as int)
                    == bwd_signal(self@.rotors, k as int, cur as int),
            decreases n - k,
        {
            proof {
                assert(self.rotors@[k as int]@ == self@.rotors[k as int]);
                assert(self.rotors@[k as int + 1]@ == self@.rotors[k as int + 1]);
            }
            let p = self.rotors[k].wire_index_inv(cur);
            let fk = self.rotors[k].face_index();
            let fk1 = self.rotors[k + 1].face_index();
            cur = shift_index(fk, fk1, p);
            k += 1;
        }
        proof {
            assert(self.rotors@[n - 1]@ == self@.rotors[n - 1]);
        }
        self.rotors[n - 1].wire_index_inv(cur)
    }

    /// Encipher one letter. The input is uppercased and must be in the
    /// alphabet; the rotors step once under the turnover policy, against
    /// a snapshot of the faces; then the letter runs plugboard, forward
    /// pass, reflector, return pass, and plugboard again. On an invalid
    /// symbol nothing changes.
    #[verifier::loop_isolation(false)]
    pub fn type_letter(&mut self, letter: char) -> (r: Result<char, EnigmaError>)
        requires
            old(self).wf(),
        ensures
            !is_letter(spec_upper(letter))
                ==> r == Err::<char, EnigmaError>(EnigmaError::InvalidSymbol)
                    && final(self)@ == old(self)@,
            is_letter(spec_upper(letter)) ==> r is Ok && is_letter(r->Ok_0)
                && final(self)@.rotors == step_rotors(old(self)@.rotors)
                && letter_index(r->Ok_0) == cipher_path(step_rotors(old(self)@.rotors),
                    old(self)@.reflector.table, old(self)@.plugboard,
                    letter_index(spec_upper(letter)))
                && final(self).wf()
                && final(self)@.enigma_type == old(self)@.enigma_type
                && final(self)@.rotor_ids == old(self)@.rotor_ids
                && final(self)@.rotor_labels == old(self)@.rotor_labels
                && final(self)@.reflector == old(self)@.reflector
                && final(self)@.plugboard == old(self)@.plugboard,
    {
        let upper = to_upper(letter);
        let pos = match alpha_index(upper) {
            Ok(p) => p,
            Err(e) => {
                return Err(e);
            },
        };
        let n = self.rotors.len();
        // snapshot which rotors stand on their own notch
        let mut trig: Vec<bool> = Vec::new();
        let mut k: usize = 0;
        while k < n
            invariant
                k <= n,
                trig@.len() == k,
                forall|j: int| 0 <= j < k
                    ==> #[trigger] trig@[j] == old(self)@.rotors[j].at_notch(),
                self == old(self),
            decreases n - k,
        {
            proof {
                assert(self.rotors@[k as int]@ == self@.rotors[k as int]);
            }
            trig.push(self.rotors[k].notch_hit());
            k += 1;
        }
        // turnover: a rotor steps when its right neighbour stood on a
        // notch; the rightmost rotor always steps
        let ghost rs0 = old(self)@.rotors;
        let mut i: usize = 0;
        while i < n - 1
            invariant
                i <= n - 1,
                self@.rotors.len() == n,
                forall|j: int| 0 <= j < i
                    ==> #[trigger] self@.rotors[j] == step_rotors(rs0)[j],
                forall|j: int| i <= j < n ==> #[trigger] self@.rotors[j] == rs0[j],
                self@.enigma_type == old(self)@.enigma_type,
                self@.rotor_ids == old(self)@.rotor_ids,
                self@.rotor_labels == old(self)@.rotor_labels,
                self@.reflector == old(self)@.reflector,
                self@.plugboard == old(self)@.plugboard,
            decreases n - 1 - i,
        {
            let ghost prev = self@.rotors;
            if trig[i + 1] {
                proof {
                    assert(self.rotors@[i as int]@ == self@.rotors[i as int]);
                }
                self.rotors[i].rotate(None);
            }
            proof {
                assert forall|j: int| 0 <= j < n && j != i as int
                    implies #[trigger] self@.rotors[j] == prev[j] by {
                    assert(self.rotors@[j]@ == self@.rotors[j]);
                }
                assert(self.rotors@[i as int]@ == self@.rotors[i as int]);
                assert(self@.rotors[i as int] == step_rotors(rs0)[i as int]);
            }
            i += 1;
        }
        let ghost prev = self@.rotors;
        proof {
            assert(self.rotors@[n - 1]@ == self@.rotors[n - 1]);
        }
        self.rotors[n - 1].rotate(None);
        proof {
            assert forall|j: int| 0 <= j < n && j != n - 1
                implies #[trigger] self@.rotors[j] == prev[j] by {
                assert(self.rotors@[j]@ == self@.rotors[j]);
            }
            assert(self.rotors@[n - 1]@ == self@.rotors[n - 1]);
            assert(self@.rotors[n - 1] == step_rotors(rs0)[n - 1]);
            assert(self@.rotors =~= step_rotors(rs0));
            crate::signal::lemma_step_rotors_wf(rs0);
        }
        // the signal path at the new rotor state
        let a = self.plugboard.map_index(pos as u8);
        let b = self.signal_forward(a);
        let d = self.reflector.map_index(b);
        let e = self.signal_backward(d);
        let f = self.plugboard.inv_index(e);
        Ok(symbol_at(f as usize))
    }


    /// Encipher a phrase: strip whitespace, pad with random filler
    /// letters to a multiple of five, encipher letter by letter, and
    /// group the output in five-letter blocks with space separators.
    /// The phrase may hold only letters and whitespace.
    #[verifier::loop_isolation(false)]
    pub fn type_phrase(&mut self, phrase: String) -> (r: String)
        requires
            old(self).wf(),
            forall|i: int| 0 <= i < phrase@.len()
                ==> is_space(#[trigger] phrase@[i]) || is_letter(spec_upper(phrase@[i])),
        ensures
            exists|pad: Seq<char>|
                #[trigger] phrase_run(old(self)@, final(self)@, phrase@, r@, pad),
            final(self).wf(),
            final(self)@.enigma_type == old(self)@.enigma_type,
            final(self)@.rotor_ids == old(self)@.rotor_ids,
            final(self)@.rotor_labels == old(self)@.rotor_labels,
            final(self)@.reflector == old(self)@.reflector,
            final(self)@.plugboard == old(self)@.plugboard,
    {
        // strip whitespace
        let n_chars = phrase.as_str().unicode_len();
        let mut letters: Vec<char> = Vec::new();
        let mut i: usize = 0;
        while i < n_chars
            invariant
                i <= n_chars,
                letters@ == phrase_letters(phrase@.take(i as int)),
                forall|k: int| 0 <= k < letters@.len()
                    ==> is_letter(spec_upper(#[trigger] letters@[k])),
                self == old(self),
            decreases n_chars - i,
        {
            let c = phrase.as_str().get_char(i);
            proof {
                lemma_phrase_letters_push(phrase@.take(i as int), c);
                assert(phrase@.take(i as int + 1)
                    =~= phrase@.take(i as int).push(phrase@[i as int]));
            }
            if !is_space_char(c) {
                letters.push(c);
            }
            i += 1;
        }
        proof {
            assert(phrase@.take(n_chars as int) =~= phrase@);
        }
        let ghost base = letters@;
        // pad to a multiple of five with filler letters
        let rem = letters.len() % 5;
        let padn: usize = if rem == 0 {
            0
        } else {
            5 - rem
        };
        let mut p: usize = 0;
        while p < padn
            invariant
                p <= padn,
                letters@.len() == base.len() + p,
                letters@.take(base.len() as int) == base,
                forall|k: int| 0 <= k < letters@.len()
                    ==> is_letter(spec_upper(#[trigger] letters@[k])),
                forall|k: int| base.len() <= k < letters@.len()
                    ==> is_letter(#[trigger] letters@[k]),
                self == old(self),
            decreases padn - p,
        {
            let idx = random_filler_index();
            let filler = symbol_at(idx);
            proof {
                assert(spec_upper(filler) == filler);
            }
            letters.push(filler);
            proof {
                assert(letters@.take(base.len() as int) =~= base);
            }
            p += 1;
        }
        let ghost full = letters@;
        let ghost padseq = full.skip(base.len() as int);
        proof {
            assert(base + padseq =~= full);
        }
        // encipher letter by letter
        let ghost rs0 = old(self)@.rotors;
        let ghost refl = old(self)@.reflector.table;
        let ghost plug = old(self)@.plugboard;
        let mut out_letters: Vec<char> = Vec::new();
        proof {
            assert(full.skip(0) =~= full);
            assert(Seq::<char>::empty() + cipher_stream(rs0, refl, plug, full)
                =~= cipher_stream(rs0, refl, plug, full));
        }
        let mut t: usize = 0;
        while t < letters.len()
            invariant
                t <= full.len(),
                letters@ == full,
                self.wf(),
                out_letters@ + cipher_stream(self@.rotors, refl, plug, full.skip(t as int))
                    == cipher_stream(rs0, refl, plug, full),
                self@.rotors == stepped_n(rs0, t as nat),
                self@.enigma_type == old(self)@.enigma_type,
                self@.rotor_ids == old(self)@.rotor_ids,
                self@.rotor_labels == old(self)@.rotor_labels,
                self@.reflector == old(self)@.reflector,
                self@.plugboard == old(self)@.plugboard,
            decreases full.len() - t,
        {
            let c = letters[t];
            let ghost rs_before = self@.rotors;
            let ghost out_before = out_letters@;
            let oc = match self.type_letter(c) {
                Ok(x) => x,
                Err(_) => {
                    proof {
                        assert(false);
                    }
                    'A'
                },
            };
            out_letters.push(oc);
            proof {
                assert(full.skip(t as int).drop_first() =~= full.skip(t as int + 1));
                assert(full.skip(t as int)[0] == full[t as int]);
                let x0 = letter_index(spec_upper(full[t as int]));
                lemma_letter_of_index(oc);
                assert(oc == letter_of(cipher_path(step_rotors(rs_before), refl, plug, x0)));
                crate::signal::lemma_stepped_n_push(rs0, t as nat);
                assert(cipher_stream(rs_before, refl, plug, full.skip(t as int))
                    == seq![oc] + cipher_stream(self@.rotors, refl, plug,
                        full.skip(t as int + 1)));
                assert(out_letters@ + cipher_stream(self@.rotors, refl, plug,
                        full.skip(t as int + 1))
                    =~= out_before + cipher_stream(rs_before, refl, plug, full.skip(t as int)));
            }
            t += 1;
        }
        proof {
            assert(full.skip(full.len() as int) =~= Seq::<char>::empty());
            assert(out_letters@ + cipher_stream(self@.rotors, refl, plug, Seq::<char>::empty())
                =~= out_letters@);
        }
        let ghost stream = out_letters@;
        // group in blocks of five
        let mut out = String::new();
        proof {
            assert(stream.skip(0) =~= stream);
            assert(Seq::<char>::empty() + group5(stream) =~= group5(stream));
        }
        let mut g: usize = 0;
        while g < out_letters.len()
            invariant
                g <= stream.len(),
                out_letters@ == stream,
                out@ + group5(stream.skip(g as int)) == group5(stream),
            decreases stream.len() - g,
        {
            let end: usize = if out_letters.len() - g >= 5 {
                g + 5
            } else {
                out_letters.len()
            };
            let ghost out_start = out@;
            let mut q = g;
            while q < end
                invariant
                    g <= q <= end,
                    end <= stream.len(),
                    out_letters@ == stream,
                    out@ == out_start + stream.subrange(g as int, q as int),
                decreases end - q,
            {
                push_char(&mut out, out_letters[q]);
                proof {
                    assert(out_start + stream.subrange(g as int, q as int + 1)
                        =~= (out_start + stream.subrange(g as int, q as int)).push(
                            stream[q as int]));
                }
                q += 1;
            }
            if end < out_letters.len() {
                push_char(&mut out, ' ');
            }
            proof {
                let sg = stream.skip(g as int);
                if stream.len() - g <= 5 {
                    assert(stream.subrange(g as int, end as int) =~= sg);
                    assert(group5(sg) == sg);
                    assert(stream.skip(end as int) =~= Seq::<char>::empty());
                    assert(out@ + group5(stream.skip(end as int)) =~= out_start + group5(sg));
                } else {
                    assert(stream.subrange(g as int, end as int) =~= sg.take(5));
                    assert(sg.skip(5) =~= stream.skip(end as int));
                    assert(group5(sg) == sg.take(5) + seq![' '] + group5(sg.skip(5)));
                    assert(out@ + group5(stream.skip(end as int))
                        =~= out_start + group5(sg));
                }
            }
            g = end;
        }
        proof {
            assert(stream.skip(g as int) =~= Seq::<char>::empty());
            assert(out@ + group5(Seq::<char>::empty()) =~= out@);
            assert forall|k: int| 0 <= k < padseq.len()
                implies is_letter(#[trigger] padseq[k]) by {
                assert(padseq[k] == full[base.len() + k]);
            }
            assert(phrase_run(old(self)@, self@, phrase@, out@, padseq));
        }
        out
    }

    /// Re-wire the plugboard so the two letters map to each other; their
    /// previous partners are paired with each other (see
    /// `Plugboard::swap_letter_wiring`).
    pub fn rewire_plugboard(&mut self, letter_1: char, letter_2: char)
        requires
            old(self).wf(),
            is_letter(letter_1),
            is_letter(letter_2),
            old(self)@.plugboard[letter_index(letter_1)] != letter_index(letter_1),
            old(self)@.plugboard[letter_index(letter_2)] != letter_index(letter_2),
        ensures
            final(self).wf(),
            final(self)@.plugboard[letter_index(letter_1)] == letter_index(letter_2),
            final(self)@.plugboard[letter_index(letter_2)] == letter_index(letter_1),
            final(self)@.plugboard[old(self)@.plugboard[letter_index(letter_1)] as int]
                == old(self)@.plugboard[letter_index(letter_2)],
            final(self)@.plugboard[old(self)@.plugboard[letter_index(letter_2)] as int]
                == old(self)@.plugboard[letter_index(letter_1)],
            forall|c: int| 0 <= c < 26
                && c != letter_index(letter_1) && c != letter_index(letter_2)
                && c != old(self)@.plugboard[letter_index(letter_1)] as int
                && c != old(self)@.plugboard[letter_index(letter_2)] as int
                ==> final(self)@.plugboard[c] == old(self)@.plugboard[c],
            (crate::wiring::no_fixed_points(old(self)@.plugboard)
                && letter_index(letter_1) != letter_index(letter_2))
                ==> crate::wiring::no_fixed_points(final(self)@.plugboard),
            final(self)@.rotors == old(self)@.rotors,
            final(self)@.enigma_type == old(self)@.enigma_type,
            final(self)@.rotor_ids == old(self)@.rotor_ids,
            final(self)@.rotor_labels == old(self)@.rotor_labels,
            final(self)@.reflector == old(self)@.reflector,
    {
        self.plugboard.swap_letter_wiring(letter_1, letter_2);
    }
}

/// The letters of a phrase: its characters with whitespace removed.
pub open spec fn phrase_letters(s: Seq<char>) -> Seq<char>
    decreases s.len(),
{
    if s.len() == 0 {
        Seq::empty()
    } else if is_space(s[0]) {
        phrase_letters(s.drop_first())
    } else {
        seq![s[0]] + phrase_letters(s.drop_first())
    }
}

/// Unrolling `phrase_letters` from the back: appending a character
/// either extends the letters or leaves them alone.
proof fn lemma_phrase_letters_push(s: Seq<char>, c: char)
    ensures
        phrase_letters(s.push(c)) == if is_space(c) {
            phrase_letters(s)
        } else {
            phrase_letters(s).push(c)
        },
    decreases s.len(),
{
    if s.len() == 0 {
        assert(s.push(c) =~= seq![c]);
        assert(seq![c].drop_first() =~= Seq::<char>::empty());
        if !is_space(c) {
            assert(seq![c] + phrase_letters(Seq::<char>::empty()) =~= phrase_letters(s).push(c));
        }
    } else {
        assert(s.push(c).drop_first() =~= s.drop_first().push(c));
        lemma_phrase_letters_push(s.drop_first(), c);
        if !is_space(s[0]) && !is_space(c) {
            assert(seq![s[0]] + phrase_letters(s.drop_first()).push(c)
                =~= (seq![s[0]] + phrase_letters(s.drop_first())).push(c));
        }
    }
}

/// How many filler letters bring a message up to a multiple of five.
pub open spec fn pad_len(l: int) -> int {
    if l % 5 == 0 {
        0
    } else {
        5 - l % 5
    }
}

/// Letters arranged in five-letter groups with a space between groups.
pub open spec fn group5(s: Seq<char>) -> Seq<char>
    decreases s.len(),
{
    if s.len() <= 5 {
        s
    } else {
        s.take(5) + seq![' '] + group5(s.skip(5))
    }
}

/// The relation `type_phrase` establishes, for one choice of padding:
/// the phrase's letters plus the padding were enciphered in order from
/// the starting state, the output is those letters in five-letter
/// groups, and the rotors have stepped once per letter.
pub open spec fn phrase_run(m0: EnigmaV, m1: EnigmaV, phrase: Seq<char>, out: Seq<char>,
    pad: Seq<char>) -> bool {
    let letters = phrase_letters(phrase) + pad;
    &&& pad.len() == pad_len(phrase_letters(phrase).len() as int)
    &&& forall|k: int| 0 <= k < pad.len() ==> is_letter(#[trigger] pad[k])
    &&& out == group5(cipher_stream(m0.rotors, m0.reflector.table, m0.plugboard, letters))
    &&& m1.rotors == stepped_n(m0.rotors, letters.len())
}

/// Relies on rand's `thread_rng` and `Rng::gen_range`: a number drawn
/// from the half-open range `0..25`, so always below 25; the range is
/// not empty, so the call does not panic. Nothing else can be promised
/// of a random value.
#[verifier::external_body]
fn random_filler_index() -> (r: usize)
    ensures
        r < 25,
{
    rand::Rng::gen_range(&mut rand::thread_rng(), 0..25usize)
}

/// Relies on std's `String::push`: appends one character at the end.
#[verifier::external_body]
fn push_char(s: &mut String, c: char)
    ensures
        final(s)@ == old(s)@.push(c),
{
    s.push(c);
}


/// Self-reciprocity of the machine: two machines built and keyed
/// identically are inverses of each other. Feeding the letters one
/// machine typed into the other, both starting from the same state,
/// recovers the original letters.
pub proof fn lemma_machine_self_reciprocal(m: EnigmaV, s: Seq<char>)
    requires
        m.wf(),
        forall|i: int| 0 <= i < s.len() ==> is_letter(#[trigger] s[i]),
    ensures
        cipher_stream(m.rotors, m.reflector.table, m.plugboard,
            cipher_stream(m.rotors, m.reflector.table, m.plugboard, s)) == s,
{
    crate::signal::lemma_cipher_stream_self_reciprocal(m.rotors, m.reflector.table, m.plugboard,
        s);
}

/// Executable inter-rotor shift on contact indices.
fn shift_index(fa: u8, fb: u8, c: u8) -> (r: u8)
    requires
        fa < 26,
        fb < 26,
        c < 26,
    ensures
        r as int == shift(fa as int, fb as int, c as int),
        r < 26,
{
    (((c as u16 + fb as u16 + 26) - fa as u16) % 26) as u8
}

} // verus!
