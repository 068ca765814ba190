//! Inversion: reflecting every pitch class of a set about an axis.

use vstd::prelude::*;
use crate::pitch_class::{pitches, simply_spelled, PitchClass};
use crate::pitch_class_set::PitchClassSet;
// `by` is also a word of proofs, so `by_pair` calls it through an alias.
use self::by as around;

verus! {

/// The set inverted around `level`: each element is replaced by the simple
/// spelling of `level` minus its pitch, modulo twelve, and the order of the
/// elements is reversed.
pub open spec fn inverted(set: Seq<PitchClass>, level: int) -> Seq<PitchClass> {
    Seq::new(set.len(), |i: int| PitchClass::simple(level - set[set.len() - 1 - i].pitch()))
}

/// The level of the inversion that maps `a` to `b` and `b` to `a`.
pub open spec fn level_of_pair(a: PitchClass, b: PitchClass) -> int {
    (a.pitch() + b.pitch()) % 12
}

/// Inverts a set around `level`. Any level is accepted and counts modulo
/// twelve. The result lists the reflected elements from the last element of
/// `set` to the first.
// The lifetime is written out to keep the name apart from the prover clause
// that `by` opens in a proof.
pub fn by<'a>(set: &'a PitchClassSet, level: i64) -> (mirrored: PitchClassSet)
    ensures
        mirrored@ == inverted(set@, level as int),
{
    let axis: u32 = match level.checked_rem_euclid(12) {
        Some(residue) => residue as u32,
        None => unreached(),
    };
    let elements = set.set();
    let mut new_set: Vec<PitchClass> = Vec::new();
    let mut i: usize = elements.len();
    while i > 0
        invariant
            elements@ == set@,
            axis as int == level as int % 12,
            i <= elements.len(),
            new_set@.len() == elements.len() - i,
            forall|j: int|
                0 <= j < new_set@.len() ==> new_set@[j] == PitchClass::simple(
                    level as int - set@[set@.len() - 1 - j].pitch(),
                ),
        decreases i,
    {
        i -= 1;
        let pc = elements[i];
        new_set.push(PitchClass::from(axis + 12 - pc.to_u32()));
    }
    assert(new_set@ =~= inverted(set@, level as int));
    PitchClassSet::new(new_set)
}

/// Inverts a set around the level that maps the two pitch classes of
/// `inversion_pair` to each other: the sum of their pitches, modulo twelve.
pub fn by_pair(set: &PitchClassSet, inversion_pair: (PitchClass, PitchClass)) -> (mirrored:
    PitchClassSet)
    ensures
        mirrored@ == inverted(set@, level_of_pair(inversion_pair.0, inversion_pair.1)),
{
    let (a, b) = inversion_pair;
    let level: u32 = (a.to_u32() + b.to_u32()) % 12;
    around(set, level as i64)
}

/// Levels that differ by a multiple of twelve invert alike.
pub proof fn lemma_inversion_wraps(set: Seq<PitchClass>, level: int, other: int)
    requires
        level % 12 == other % 12,
    ensures
        inverted(set, level) == inverted(set, other),
{
    assert(inverted(set, level) =~= inverted(set, other));
}

/// Reflecting a pitch twice about one axis gives the pitch back.
proof fn lemma_reflect_twice(spelling: PitchClass, level: int)
    ensures
        PitchClass::simple(level - PitchClass::simple(level - spelling.pitch()).pitch())
            == PitchClass::simple(spelling.pitch()),
{
    let once = level - spelling.pitch();
    crate::pitch_class::lemma_simple_keeps_pitch(once);
    crate::pitch_class::lemma_simple_congruent(level - once % 12, spelling.pitch());
}

/// Inverting twice around one level restores every pitch at its place, and
/// so the content of the set; a simply spelled set comes back unchanged.
pub proof fn lemma_inversion_is_involution(set: Seq<PitchClass>, level: int)
    ensures
        pitches(inverted(inverted(set, level), level)) == pitches(set),
        pitches(inverted(inverted(set, level), level)).to_multiset() == pitches(
            set,
        ).to_multiset(),
        simply_spelled(inverted(inverted(set, level), level)),
        simply_spelled(set) ==> inverted(inverted(set, level), level) == set,
{
    let once = inverted(set, level);
    let twice = inverted(once, level);
    assert forall|i: int| 0 <= i < set.len() implies #[trigger] twice[i] == PitchClass::simple(
        set[i].pitch(),
    ) by {
        assert(once[set.len() - 1 - i] == PitchClass::simple(level - set[i].pitch()));
        lemma_reflect_twice(set[i], level);
    }
    assert forall|i: int| 0 <= i < set.len() implies (#[trigger] twice[i]).is_simple()
        && twice[i].pitch() == set[i].pitch() by {
        crate::pitch_class::lemma_simple_keeps_pitch(set[i].pitch());
    }
    assert(pitches(twice) =~= pitches(set));
    if simply_spelled(set) {
        assert forall|i: int| 0 <= i < set.len() implies twice[i] == set[i] by {
            assert(set[i].is_simple());
        }
        assert(twice =~= set);
    }
}

/// Two pitches add up to a level, modulo twelve, exactly when the level
/// less one of them is the other.
proof fn lemma_mirror_arithmetic(level: int, pitch: int, partner: int)
    ensures
        (pitch + partner) % 12 == level % 12 <==> (level - partner) % 12 == pitch % 12,
{
}

/// The reflection of `partner` about `level` is the simple spelling
/// `spelling` exactly when the pitches of the two add up to the level.
proof fn lemma_reflection_hits(spelling: PitchClass, partner: PitchClass, level: int)
    requires
        spelling.is_simple(),
    ensures
        PitchClass::simple(level - partner.pitch()) == spelling <==> (spelling.pitch()
            + partner.pitch()) % 12 == level % 12,
{
    let reflected = level - partner.pitch();
    lemma_mirror_arithmetic(level, spelling.pitch(), partner.pitch());
    crate::pitch_class::lemma_simple_keeps_pitch(reflected);
    crate::pitch_class::lemma_simple_keeps_pitch(spelling.pitch());
    if reflected % 12 == spelling.pitch() % 12 {
        crate::pitch_class::lemma_simple_congruent(reflected, spelling.pitch());
    }
}

/// Inversion is no identity: it gives a simply spelled set back only if the
/// set is its own mirror image, element `i` from the front and element `i`
/// from the back adding up to the level.
pub proof fn lemma_inversion_fixes_only_mirrored_sets(set: Seq<PitchClass>, level: int)
    requires
        simply_spelled(set),
    ensures
        inverted(set, level) == set <==> forall|i: int|
            0 <= i < set.len() ==> ((#[trigger] set[i]).pitch() + set[set.len() - 1 - i].pitch())
                % 12 == level % 12,
{
    assert forall|i: int| 0 <= i < set.len() implies (#[trigger] inverted(set, level)[i] == set[i]
        <==> (set[i].pitch() + set[set.len() - 1 - i].pitch()) % 12 == level % 12) by {
        lemma_reflection_hits(set[i], set[set.len() - 1 - i], level);
    }
    if forall|i: int|
        0 <= i < set.len() ==> ((#[trigger] set[i]).pitch() + set[set.len() - 1 - i].pitch()) % 12
            == level % 12 {
        assert(inverted(set, level) =~= set);
    }
}

/// An inversion around the level of a pair maps each pitch of the pair to
/// the other.
pub proof fn lemma_pair_level_swaps(a: PitchClass, b: PitchClass)
    ensures
        inverted(seq![a], level_of_pair(a, b)) == seq![PitchClass::simple(b.pitch())],
        inverted(seq![b], level_of_pair(a, b)) == seq![PitchClass::simple(a.pitch())],
{
    let level = level_of_pair(a, b);
    crate::pitch_class::lemma_simple_congruent(level - a.pitch(), b.pitch());
    crate::pitch_class::lemma_simple_congruent(level - b.pitch(), a.pitch());
    assert(inverted(seq![a], level)[0] == PitchClass::simple(level - a.pitch()));
    assert(inverted(seq![b], level)[0] == PitchClass::simple(level - b.pitch()));
    assert(inverted(seq![a], level) =~= seq![PitchClass::simple(b.pitch())]);
    assert(inverted(seq![b], level) =~= seq![PitchClass::simple(a.pitch())]);
}

} // verus!
