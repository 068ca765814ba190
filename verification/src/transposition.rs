//! Transposition: moving every pitch class of a set by the same number of
//! semitones.

use vstd::prelude::*;
use crate::pitch_class::{simply_spelled, PitchClass};
use crate::pitch_class_set::PitchClassSet;

verus! {

/// The set moved up by `level` semitones: each element is replaced, in
/// place, by the simple spelling of its pitch plus `level`, modulo twelve.
pub open spec fn transposed(set: Seq<PitchClass>, level: int) -> Seq<PitchClass> {
    Seq::new(set.len(), |i: int| PitchClass::simple(set[i].pitch() + level))
}

/// Transposes a set by `level` semitones. Any level is accepted and counts
/// modulo twelve, a negative one moving the set down.
// The lifetime is written out to keep the name apart from the prover clause
// that `by` opens in a proof.
pub fn by<'a>(set: &'a PitchClassSet, level: i64) -> (moved: PitchClassSet)
    ensures
        moved@ == transposed(set@, level as int),
{
    let shift: u32 = match level.checked_rem_euclid(12) {
        Some(residue) => residue as u32,
        None => unreached(),
    };
    let elements = set.set();
    let mut new_set: Vec<PitchClass> = Vec::new();
    for i in 0..elements.len()
        invariant
            elements@ == set@,
            shift as int == level as int % 12,
            new_set@.len() == i,
            forall|j: int|
                0 <= j < i ==> new_set@[j] == PitchClass::simple(set@[j].pitch() + level as int),
    {
        let pc = elements[i];
        new_set.push(PitchClass::from(pc.to_u32() + shift));
    }
    assert(new_set@ =~= transposed(set@, level as int));
    PitchClassSet::new(new_set)
}

/// Transposing twice is transposing once by the sum of the levels.
pub proof fn lemma_transposition_composes(set: Seq<PitchClass>, first: int, second: int)
    ensures
        transposed(transposed(set, first), second) == transposed(set, first + second),
{
    assert(transposed(transposed(set, first), second) =~= transposed(set, first + second));
}

/// Levels that differ by a multiple of twelve transpose alike.
pub proof fn lemma_transposition_wraps(set: Seq<PitchClass>, level: int, other: int)
    requires
        level % 12 == other % 12,
    ensures
        transposed(set, level) == transposed(set, other),
{
    assert(transposed(set, level) =~= transposed(set, other));
}

/// Transposition by 0 is the identity on simply spelled sets; on any set it
/// keeps every pitch and respells it simply.
pub proof fn lemma_transposition_identity(set: Seq<PitchClass>)
    ensures
        simply_spelled(set) ==> transposed(set, 0) == set,
        simply_spelled(transposed(set, 0)),
        forall|i: int| 0 <= i < set.len() ==> transposed(set, 0)[i].pitch() == set[i].pitch(),
{
    if simply_spelled(set) {
        assert forall|i: int| 0 <= i < set.len() implies transposed(set, 0)[i] == set[i] by {
            assert(set[i].is_simple());
        }
        assert(transposed(set, 0) =~= set);
    }
}

/// Transposition can be undone: moving a simply spelled set by `level` and
/// then by `-level` gives the set back.
pub proof fn lemma_transposition_round_trip(set: Seq<PitchClass>, level: int)
    requires
        simply_spelled(set),
    ensures
        transposed(transposed(set, level), -level) == set,
{
    lemma_transposition_composes(set, level, -level);
    lemma_transposition_identity(set);
}

} // verus!
