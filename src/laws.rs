use vstd::prelude::*;

use crate::state::{
    lemma_fields_fit, lemma_normal_fixed, lemma_normalized_wf, lemma_packing_injective,
    lemma_rotation_keeps_distinct, unpacked, valid_packed, State,
};

verus! {

/// Packing a legal state gives a valid packed integer; unpacking it gives the
/// state's canonical representative back, which packs to the same integer.
pub proof fn lemma_full_round_trip(s: State)
    requires
        s.wf(),
    ensures
        valid_packed(s.packed() as u64),
        unpacked(s.packed() as u64) == s.normalized(),
        unpacked(s.packed() as u64).packed() == s.packed(),
        unpacked(s.packed() as u64).equivalent(s),
{
    lemma_normalized_wf(s);
    let n = s.normalized();
    lemma_fields_fit(n);
    let p = s.packed() as u64;
    lemma_normal_fixed(n);
    assert(n.wf() && n.is_normal() && n.fields().packed_value() == p);
    let u = unpacked(p);
    lemma_packing_injective(u, n);
}

/// A state and each of its three rotations have the same canonical
/// representative, hence the same packed integer.
pub proof fn lemma_rotation_invariant(s: State)
    requires
        s.on_board(),
    ensures
        s.cw().normalized() == s.normalized(),
        s.ccw().normalized() == s.normalized(),
        s.half_turn().normalized() == s.normalized(),
        s.cw().packed() == s.packed(),
        s.ccw().packed() == s.packed(),
        s.half_turn().packed() == s.packed(),
        s.wf() ==> s.cw().wf() && s.ccw().wf() && s.half_turn().wf(),
{
    lemma_rotation_keeps_distinct(s, s.cw());
    lemma_rotation_keeps_distinct(s, s.ccw());
    lemma_rotation_keeps_distinct(s, s.half_turn());
    assert(s.cw().oriented().knights =~= s.oriented().knights);
    assert(s.ccw().oriented().knights =~= s.oriented().knights);
    assert(s.half_turn().oriented().knights =~= s.oriented().knights);
    assert(s.cw().oriented() == s.oriented());
    assert(s.ccw().oriented() == s.oriented());
    assert(s.half_turn().oriented() == s.oriented());
}

/// Normalizing twice gives the same state as normalizing once.
pub proof fn lemma_normalize_idempotent(s: State)
    requires
        s.on_board(),
        s.knights_distinct(),
    ensures
        s.normalized().normalized() == s.normalized(),
{
    lemma_normalized_wf(s);
    lemma_normal_fixed(s.normalized());
}

} // verus!
