//! Specification vocabulary for 26-entry wiring tables.
//!
//! A wiring table connects each of the 26 input contacts to an output
//! contact. Rotors carry an arbitrary permutation; reflectors and the
//! plugboard carry involutions.

use vstd::prelude::*;

verus! {

/// Every entry of the table is a contact position 0..26.
pub open spec fn in_range(w: Seq<u8>) -> bool {
    &&& w.len() == 26
    &&& forall|i: int| 0 <= i < 26 ==> w[i] < 26
}

/// Some input contact of `w` connects to the output contact `j`.
pub open spec fn has_preimage(w: Seq<u8>, j: int) -> bool {
    exists|i: int| 0 <= i < 26 && #[trigger] w[i] == j
}

/// No two input contacts connect to the same output contact.
pub open spec fn injective(w: Seq<u8>) -> bool {
    forall|i: int, j: int| 0 <= i < 26 && 0 <= j < 26 && i != j ==> w[i] != w[j]
}

/// The table is a permutation of the 26 contact positions.
pub open spec fn is_permutation(w: Seq<u8>) -> bool {
    &&& in_range(w)
    &&& injective(w)
    &&& forall|j: int| 0 <= j < 26 ==> #[trigger] has_preimage(w, j)
}

/// The input contact of `w` that connects to the output contact `j`;
/// meaningful only when such a contact exists.
pub open spec fn preimage(w: Seq<u8>, j: int) -> int {
    choose|i: int| 0 <= i < 26 && #[trigger] w[i] == j
}

/// For a permutation, `preimage` is the unique, in-range inverse.
pub proof fn lemma_preimage(w: Seq<u8>, j: int)
    requires
        is_permutation(w),
        0 <= j < 26,
    ensures
        0 <= preimage(w, j) < 26,
        w[preimage(w, j)] == j,
        forall|i: int| 0 <= i < 26 && #[trigger] w[i] == j ==> i == preimage(w, j),
{
    assert(has_preimage(w, j));
}

/// The table pairs contacts: following it twice returns to the start.
pub open spec fn is_involution(w: Seq<u8>) -> bool {
    &&& in_range(w)
    &&& forall|i: int| 0 <= i < 26 ==> w[#[trigger] w[i] as int] == i
}

/// No contact connects to itself.
pub open spec fn no_fixed_points(w: Seq<u8>) -> bool {
    forall|i: int| 0 <= i < 26 ==> #[trigger] w[i] != i
}

/// Every involution is a permutation: each contact is its own partner's
/// partner, so the pairing is both injective and onto.
pub proof fn lemma_involution_is_permutation(w: Seq<u8>)
    requires
        is_involution(w),
    ensures
        is_permutation(w),
{
    assert forall|j: int| 0 <= j < 26 implies #[trigger] has_preimage(w, j) by {
        assert(w[w[j] as int] == j);
    }
}

/// For an involution, the partner of `j` is also its unique preimage.
pub proof fn lemma_involution_preimage(w: Seq<u8>, j: int)
    requires
        is_involution(w),
        0 <= j < 26,
    ensures
        preimage(w, j) == w[j] as int,
{
    lemma_involution_is_permutation(w);
    lemma_preimage(w, j);
    assert(w[w[j] as int] == j);
}

} // verus!
