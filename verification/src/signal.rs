//! The signal path and the stepping policy, as specification functions,
//! with the laws that make the machine a cipher: stepping is
//! deterministic, and enciphering is self-reciprocal.
//!
//! A signal enters at the plugboard, runs right-to-left through the
//! rotor stack with an offset correction at every rotor-to-rotor
//! boundary, reflects, runs back left-to-right, and leaves through the
//! plugboard again.

use vstd::prelude::*;

use crate::alphabet::{is_letter, letter_index, letter_of, lemma_letter_of, lemma_letter_of_index,
    spec_upper};
use crate::rotor::RotorV;
use crate::wiring::{is_involution, lemma_preimage, no_fixed_points, preimage};

verus! {

/// Every rotor in the stack is well formed.
pub open spec fn rotors_wf(rs: Seq<RotorV>) -> bool {
    forall|i: int| 0 <= i < rs.len() ==> (#[trigger] rs[i]).wf()
}

/// The inter-rotor offset correction: a signal leaving the rotor whose
/// face is at `fa` and entering the rotor whose face is at `fb` is
/// shifted by the difference of the two face positions, wrapping at 26.
pub open spec fn shift(fa: int, fb: int, c: int) -> int {
    (c + fb - fa + 26) % 26
}

/// The forward pass through rotors `k` down to `0` (right to left):
/// each rotor's wiring is applied, and between rotors the inter-rotor
/// shift from rotor `k` to rotor `k - 1`.
pub open spec fn fwd_signal(rs: Seq<RotorV>, k: int, c: int) -> int
    decreases k,
{
    if k <= 0 {
        rs[0].wiring[c] as int
    } else {
        fwd_signal(rs, k - 1, shift(rs[k].face as int, rs[k - 1].face as int, rs[k].wiring[c] as int))
    }
}

/// The return pass through rotors `k` up to the rightmost (left to
/// right): each rotor's wiring is inverted, and between rotors the
/// inter-rotor shift from rotor `k` to rotor `k + 1`.
pub open spec fn bwd_signal(rs: Seq<RotorV>, k: int, c: int) -> int
    decreases rs.len() - k,
{
    let p = preimage(rs[k].wiring, c);
    if k >= rs.len() - 1 {
        p
    } else {
        bwd_signal(rs, k + 1, shift(rs[k].face as int, rs[k + 1].face as int, p))
    }
}

/// What remains of the return pass once rotor `k`'s own inversion is
/// undone: the shift into rotor `k + 1` and the pass from there on.
pub open spec fn bwd_after(rs: Seq<RotorV>, k: int, c: int) -> int {
    if k >= rs.len() - 1 {
        c
    } else {
        bwd_signal(rs, k + 1, shift(rs[k].face as int, rs[k + 1].face as int, c))
    }
}

/// What remains of the forward pass once rotor `k`'s own wiring is
/// undone: the shift into rotor `k - 1` and the pass from there on.
pub open spec fn fwd_cont(rs: Seq<RotorV>, k: int, c: int) -> int {
    if k <= 0 {
        c
    } else {
        fwd_signal(rs, k - 1, shift(rs[k].face as int, rs[k - 1].face as int, c))
    }
}

/// The two shifts across one rotor boundary cancel each other.
pub proof fn lemma_shift_cancel(fa: int, fb: int, c: int)
    requires
        0 <= c < 26,
    ensures
        shift(fb, fa, shift(fa, fb, c)) == c,
{
    let x = c + fb - fa + 26;
    vstd::arithmetic::div_mod::lemma_add_mod_noop_right(fa - fb + 26, x, 26);
    vstd::arithmetic::div_mod::lemma_fundamental_div_mod_converse_mod(c + 52, 26, 2, c);
}

/// The forward pass stays on the 26 contacts.
pub proof fn lemma_fwd_signal_in_range(rs: Seq<RotorV>, k: int, c: int)
    requires
        rotors_wf(rs),
        0 <= k < rs.len(),
        0 <= c < 26,
    ensures
        0 <= fwd_signal(rs, k, c) < 26,
    decreases k,
{
    if k > 0 {
        lemma_fwd_signal_in_range(rs, k - 1,
            shift(rs[k].face as int, rs[k - 1].face as int, rs[k].wiring[c] as int));
    }
}

/// The return pass stays on the 26 contacts.
pub proof fn lemma_bwd_signal_in_range(rs: Seq<RotorV>, k: int, c: int)
    requires
        rotors_wf(rs),
        0 <= k < rs.len(),
        0 <= c < 26,
    ensures
        0 <= bwd_signal(rs, k, c) < 26,
    decreases rs.len() - k,
{
    lemma_preimage(rs[k].wiring, c);
    if k < rs.len() - 1 {
        lemma_bwd_signal_in_range(rs, k + 1,
            shift(rs[k].face as int, rs[k + 1].face as int, preimage(rs[k].wiring, c)));
    }
}

/// The return pass undoes the forward pass: feeding the forward pass
/// from rotor `k` into the full return pass leaves exactly the part of
/// the return pass beyond rotor `k`.
pub proof fn lemma_bwd_undoes_fwd(rs: Seq<RotorV>, k: int, c: int)
    requires
        rotors_wf(rs),
        rs.len() >= 1,
        0 <= k < rs.len(),
        0 <= c < 26,
    ensures
        bwd_signal(rs, 0, fwd_signal(rs, k, c)) == bwd_after(rs, k, c),
    decreases k,
{
    if k == 0 {
        lemma_preimage(rs[0].wiring, rs[0].wiring[c] as int);
    } else {
        let w = rs[k].wiring[c] as int;
        let z = shift(rs[k].face as int, rs[k - 1].face as int, w);
        lemma_bwd_undoes_fwd(rs, k - 1, z);
        lemma_shift_cancel(rs[k].face as int, rs[k - 1].face as int, w);
        lemma_preimage(rs[k].wiring, w);
    }
}

/// The forward pass undoes the return pass: feeding the return pass
/// from rotor `k` into the full forward pass leaves exactly the part of
/// the forward pass beyond rotor `k`.
pub proof fn lemma_fwd_undoes_bwd(rs: Seq<RotorV>, k: int, c: int)
    requires
        rotors_wf(rs),
        rs.len() >= 1,
        0 <= k < rs.len(),
        0 <= c < 26,
    ensures
        fwd_signal(rs, rs.len() - 1, bwd_signal(rs, k, c)) == fwd_cont(rs, k, c),
    decreases rs.len() - k,
{
    let p = preimage(rs[k].wiring, c);
    lemma_preimage(rs[k].wiring, c);
    if k >= rs.len() - 1 {
    } else {
        let z = shift(rs[k].face as int, rs[k + 1].face as int, p);
        lemma_fwd_undoes_bwd(rs, k + 1, z);
        lemma_shift_cancel(rs[k].face as int, rs[k + 1].face as int, p);
    }
}

/// One full letter path: plugboard in, forward pass from the rightmost
/// rotor, reflector, return pass to the rightmost rotor, plugboard out.
/// The outgoing plugboard lookup is the inverse one, which for an
/// involution is the same as the forward lookup.
pub open spec fn cipher_path(rs: Seq<RotorV>, refl: Seq<u8>, plug: Seq<u8>, c: int) -> int {
    let a = plug[c] as int;
    let b = fwd_signal(rs, rs.len() - 1, a);
    let d = refl[b] as int;
    let e = bwd_signal(rs, 0, d);
    plug[e] as int
}

/// The letter path stays on the 26 contacts.
pub proof fn lemma_cipher_path_in_range(rs: Seq<RotorV>, refl: Seq<u8>, plug: Seq<u8>, c: int)
    requires
        rotors_wf(rs),
        rs.len() >= 1,
        is_involution(refl),
        is_involution(plug),
        0 <= c < 26,
    ensures
        0 <= cipher_path(rs, refl, plug, c) < 26,
{
    let a = plug[c] as int;
    lemma_fwd_signal_in_range(rs, rs.len() - 1, a);
    let b = fwd_signal(rs, rs.len() - 1, a);
    lemma_bwd_signal_in_range(rs, 0, refl[b] as int);
}

/// Self-reciprocity of one letter: at a fixed rotor state, enciphering
/// the enciphered letter returns the original letter. Encryption and
/// decryption are the same operation.
pub proof fn lemma_cipher_path_self_reciprocal(rs: Seq<RotorV>, refl: Seq<u8>, plug: Seq<u8>,
    c: int)
    requires
        rotors_wf(rs),
        rs.len() >= 1,
        is_involution(refl),
        is_involution(plug),
        0 <= c < 26,
    ensures
        cipher_path(rs, refl, plug, cipher_path(rs, refl, plug, c)) == c,
{
    let n = rs.len() - 1;
    let a = plug[c] as int;
    let b = fwd_signal(rs, n, a);
    lemma_fwd_signal_in_range(rs, n, a);
    let d = refl[b] as int;
    let e = bwd_signal(rs, 0, d);
    lemma_bwd_signal_in_range(rs, 0, d);
    let y = plug[e] as int;
    // second pass
    assert(plug[y] == e);
    lemma_fwd_undoes_bwd(rs, 0, d);
    assert(fwd_signal(rs, n, e) == d);
    assert(refl[d] == b);
    lemma_bwd_undoes_fwd(rs, n, a);
    assert(bwd_signal(rs, 0, b) == a);
    assert(plug[a] == c);
}

/// A letter never enciphers to itself: the reflector's freedom from
/// fixed points survives the whole signal path.
pub proof fn lemma_cipher_path_no_fixed_point(rs: Seq<RotorV>, refl: Seq<u8>, plug: Seq<u8>,
    c: int)
    requires
        rotors_wf(rs),
        rs.len() >= 1,
        is_involution(refl),
        no_fixed_points(refl),
        is_involution(plug),
        0 <= c < 26,
    ensures
        cipher_path(rs, refl, plug, c) != c,
{
    let n = rs.len() - 1;
    let a = plug[c] as int;
    let b = fwd_signal(rs, n, a);
    lemma_fwd_signal_in_range(rs, n, a);
    let d = refl[b] as int;
    let e = bwd_signal(rs, 0, d);
    lemma_bwd_signal_in_range(rs, 0, d);
    if plug[e] == c {
        assert(e == plug[c]) by {
            assert(plug[plug[e] as int] == e);
        }
        lemma_fwd_undoes_bwd(rs, 0, d);
        assert(fwd_signal(rs, n, e) == d);
        assert(d == b);
        assert(refl[b] != b);
        assert(false);
    }
}

/// One round of the stepping policy: every rotor whose right neighbour
/// stands on one of its own notches advances one position, and the
/// rightmost rotor always advances; all against a snapshot of the faces
/// before the round.
pub open spec fn step_rotors(rs: Seq<RotorV>) -> Seq<RotorV> {
    Seq::new(rs.len(), |i: int| RotorV {
        wiring: rs[i].wiring,
        notches: rs[i].notches,
        face: if i == rs.len() - 1 || rs[i + 1].at_notch() {
            ((rs[i].face + 1) % 26) as u8
        } else {
            rs[i].face
        },
        name: rs[i].name,
    })
}

/// Stepping keeps every rotor well formed.
pub proof fn lemma_step_rotors_wf(rs: Seq<RotorV>)
    requires
        rotors_wf(rs),
    ensures
        rotors_wf(step_rotors(rs)),
{
    assert forall|i: int| 0 <= i < step_rotors(rs).len() implies (#[trigger] step_rotors(rs)[i]).wf()
    by {
        assert(rs[i].wf());
    }
}

/// Stepping determinism, one round: the faces after a round depend only
/// on the faces and notch sets before it, never on the wiring or on any
/// letter being typed.
pub proof fn lemma_stepping_deterministic(rs1: Seq<RotorV>, rs2: Seq<RotorV>)
    requires
        rs1.len() == rs2.len(),
        forall|i: int| 0 <= i < rs1.len()
            ==> (#[trigger] rs1[i]).face == rs2[i].face && rs1[i].notches == rs2[i].notches,
    ensures
        forall|i: int| 0 <= i < rs1.len()
            ==> (#[trigger] step_rotors(rs1)[i]).face == step_rotors(rs2)[i].face
                && step_rotors(rs1)[i].notches == step_rotors(rs2)[i].notches,
{
    assert forall|i: int| 0 <= i < rs1.len() implies
        (#[trigger] step_rotors(rs1)[i]).face == step_rotors(rs2)[i].face
            && step_rotors(rs1)[i].notches == step_rotors(rs2)[i].notches by {
        if i < rs1.len() - 1 {
            assert(rs1[i + 1].face == rs2[i + 1].face && rs1[i + 1].notches == rs2[i + 1].notches);
            assert(rs1[i + 1].at_notch() == rs2[i + 1].at_notch());
        }
    }
}

/// The rotor state after `n` rounds of stepping.
pub open spec fn stepped_n(rs: Seq<RotorV>, n: nat) -> Seq<RotorV>
    decreases n,
{
    if n == 0 {
        rs
    } else {
        stepped_n(step_rotors(rs), (n - 1) as nat)
    }
}

/// Stepping determinism over any number of rounds: two machines whose
/// rotors start on the same faces with the same notch sets show the
/// same faces after the same number of rounds.
pub proof fn lemma_stepping_deterministic_n(rs1: Seq<RotorV>, rs2: Seq<RotorV>, n: nat)
    requires
        rs1.len() == rs2.len(),
        forall|i: int| 0 <= i < rs1.len()
            ==> (#[trigger] rs1[i]).face == rs2[i].face && rs1[i].notches == rs2[i].notches,
    ensures
        forall|i: int| 0 <= i < rs1.len()
            ==> (#[trigger] stepped_n(rs1, n)[i]).face == stepped_n(rs2, n)[i].face
                && stepped_n(rs1, n)[i].notches == stepped_n(rs2, n)[i].notches,
        stepped_n(rs1, n).len() == rs1.len(),
    decreases n,
{
    if n == 0 {
    } else {
        lemma_stepping_deterministic(rs1, rs2);
        lemma_stepping_deterministic_n(step_rotors(rs1), step_rotors(rs2), (n - 1) as nat);
    }
}

/// The letters produced by typing a sequence of characters in order:
/// before each letter the rotors step once, then the letter runs the
/// full signal path at the new state.
pub open spec fn cipher_stream(rs: Seq<RotorV>, refl: Seq<u8>, plug: Seq<u8>, s: Seq<char>)
    -> Seq<char>
    decreases s.len(),
{
    if s.len() == 0 {
        Seq::empty()
    } else {
        let rs1 = step_rotors(rs);
        seq![letter_of(cipher_path(rs1, refl, plug, letter_index(spec_upper(s[0]))))]
            + cipher_stream(rs1, refl, plug, s.drop_first())
    }
}

/// Self-reciprocity of a whole message: a second machine with the same
/// configuration and starting state, fed the enciphered letters, types
/// out the original letters. Stepping is identical on both machines
/// because it never depends on the letters typed.
pub proof fn lemma_cipher_stream_self_reciprocal(rs: Seq<RotorV>, refl: Seq<u8>, plug: Seq<u8>,
    s: Seq<char>)
    requires
        rotors_wf(rs),
        rs.len() >= 1,
        is_involution(refl),
        is_involution(plug),
        forall|i: int| 0 <= i < s.len() ==> is_letter(#[trigger] s[i]),
    ensures
        cipher_stream(rs, refl, plug, cipher_stream(rs, refl, plug, s)) == s,
    decreases s.len(),
{
    if s.len() == 0 {
        assert(cipher_stream(rs, refl, plug, cipher_stream(rs, refl, plug, s)) =~= s);
    } else {
        let rs1 = step_rotors(rs);
        lemma_step_rotors_wf(rs);
        let c0 = s[0];
        assert(spec_upper(c0) == c0);
        let x0 = letter_index(c0);
        let y = cipher_path(rs1, refl, plug, x0);
        lemma_cipher_path_in_range(rs1, refl, plug, x0);
        lemma_letter_of(y);
        let y0 = letter_of(y);
        let out = cipher_stream(rs, refl, plug, s);
        assert(out.len() > 0 && out[0] == y0 && out.drop_first()
            =~= cipher_stream(rs1, refl, plug, s.drop_first()));
        // the second machine's first letter undoes the first machine's
        assert(spec_upper(y0) == y0);
        lemma_cipher_path_self_reciprocal(rs1, refl, plug, x0);
        lemma_letter_of_index(c0);
        assert(letter_of(cipher_path(rs1, refl, plug, letter_index(y0))) == c0);
        // and the tails undo each other
        lemma_cipher_stream_self_reciprocal(rs1, refl, plug, s.drop_first());
        assert(cipher_stream(rs, refl, plug, out)
            =~= seq![c0] + cipher_stream(rs1, refl, plug, out.drop_first()));
        assert(cipher_stream(rs, refl, plug, cipher_stream(rs, refl, plug, s)) =~= s);
    }
}


/// Unrolling `stepped_n` from the back: one more round is one round
/// applied to the state after `n` rounds.
pub proof fn lemma_stepped_n_push(rs: Seq<RotorV>, n: nat)
    ensures
        stepped_n(rs, n + 1) == step_rotors(stepped_n(rs, n)),
    decreases n,
{
    if n == 0 {
        assert(stepped_n(rs, 1) == stepped_n(step_rotors(rs), 0));
    } else {
        lemma_stepped_n_push(step_rotors(rs), (n - 1) as nat);
        assert(stepped_n(rs, n + 1) == stepped_n(step_rotors(rs), n));
    }
}

} // verus!
