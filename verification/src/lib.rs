//! Pitch-class set analysis: normal form, prime form, transposition and
//! inversion of collections of pitch classes, with machine-checked contracts.

use vstd::prelude::*;

pub mod inversion;
pub mod normal_form;
pub mod pitch_class;
pub mod pitch_class_set;
pub mod prime_form;
pub mod ranking;
pub mod sequences;
pub mod transposition;
pub mod utils;

// `by` is also a word of proofs, so the two functions of that name are
// called through aliases.
use inversion::by as invert_by;
use transposition::by as transpose_by;

pub use pitch_class::PitchClass;
pub use pitch_class_set::PitchClassSet;

verus! {

/// Reorders a set into its normal form, the most compact way of writing it:
/// the rotation of its ascending arrangement whose first and last elements
/// lie closest together, with ties decided by how tightly the intervals are
/// packed.
pub fn to_normal_form(set: &PitchClassSet) -> (form: PitchClassSet)
    ensures
        normal_form::is_normal_form(set@, form@),
        form@ == normal_form::normal_form_of(set@),
        form@.to_multiset() == set@.to_multiset(),
{
    normal_form::from(set)
}

/// Converts a set to the prime form of its set class: its normal form, read
/// in the direction that packs it to the left and moved to begin on 0.
pub fn to_prime_form(set: &PitchClassSet) -> (prime: Vec<u32>)
    ensures
        sequences::as_ints(prime@) == prime_form::prime_form_of(set@),
        prime@.len() > 0,
        prime@[0] == 0,
        set@.len() > 0 ==> prime@.len() == set@.len(),
{
    prime_form::from(set)
}

/// Transposes a set by `level` semitones, modulo twelve.
pub fn transpose(set: &PitchClassSet, level: i64) -> (moved: PitchClassSet)
    ensures
        moved@ == transposition::transposed(set@, level as int),
{
    transpose_by(set, level)
}

/// Inverts a set around `level`, modulo twelve. Unlike transposition by 0,
/// inversion around 0 does not in general give the set back.
pub fn invert(set: &PitchClassSet, level: i64) -> (mirrored: PitchClassSet)
    ensures
        mirrored@ == inversion::inverted(set@, level as int),
{
    invert_by(set, level)
}

/// Inverts a set around the level at which the two pitch classes of
/// `inversion_pair` map to each other.
pub fn invert_by_pair(set: &PitchClassSet, inversion_pair: (PitchClass, PitchClass)) -> (mirrored:
    PitchClassSet)
    ensures
        mirrored@ == inversion::inverted(
            set@,
            inversion::level_of_pair(inversion_pair.0, inversion_pair.1),
        ),
{
    inversion::by_pair(set, inversion_pair)
}

/// Transposes a set by 0 semitones: [`transpose`] at level 0.
pub fn t0(set: &PitchClassSet) -> (moved: PitchClassSet)
    ensures
        moved@ == transposition::transposed(set@, 0),
{
    transpose(set, 0)
}

/// Transposes a set by 1 semitone: [`transpose`] at level 1.
pub fn t1(set: &PitchClassSet) -> (moved: PitchClassSet)
    ensures
        moved@ == transposition::transposed(set@, 1),
{
    transpose(set, 1)
}

/// Transposes a set by 2 semitones: [`transpose`] at level 2.
pub fn t2(set: &PitchClassSet) -> (moved: PitchClassSet)
    ensures
        moved@ == transposition::transposed(set@, 2),
{
    transpose(set, 2)
}

/// Transposes a set by 3 semitones: [`transpose`] at level 3.
pub fn t3(set: &PitchClassSet) -> (moved: PitchClassSet)
    ensures
        moved@ == transposition::transposed(set@, 3),
{
    transpose(set, 3)
}

/// Transposes a set by 4 semitones: [`transpose`] at level 4.
pub fn t4(set: &PitchClassSet) -> (moved: PitchClassSet)
    ensures
        moved@ == transposition::transposed(set@, 4),
{
    transpose(set, 4)
}

/// Transposes a set by 5 semitones: [`transpose`] at level 5.
pub fn t5(set: &PitchClassSet) -> (moved: PitchClassSet)
    ensures
        moved@ == transposition::transposed(set@, 5),
{
    transpose(set, 5)
}

/// Transposes a set by 6 semitones: [`transpose`] at level 6.
pub fn t6(set: &PitchClassSet) -> (moved: PitchClassSet)
    ensures
        moved@ == transposition::transposed(set@, 6),
{
    transpose(set, 6)
}

/// Transposes a set by 7 semitones: [`transpose`] at level 7.
pub fn t7(set: &PitchClassSet) -> (moved: PitchClassSet)
    ensures
        moved@ == transposition::transposed(set@, 7),
{
    transpose(set, 7)
}

/// Transposes a set by 8 semitones: [`transpose`] at level 8.
pub fn t8(set: &PitchClassSet) -> (moved: PitchClassSet)
    ensures
        moved@ == transposition::transposed(set@, 8),
{
    transpose(set, 8)
}

/// Transposes a set by 9 semitones: [`transpose`] at level 9.
pub fn t9(set: &PitchClassSet) -> (moved: PitchClassSet)
    ensures
        moved@ == transposition::transposed(set@, 9),
{
    transpose(set, 9)
}

/// Transposes a set by 10 semitones: [`transpose`] at level 10.
pub fn t10(set: &PitchClassSet) -> (moved: PitchClassSet)
    ensures
        moved@ == transposition::transposed(set@, 10),
{
    transpose(set, 10)
}

/// Transposes a set by 11 semitones: [`transpose`] at level 11.
pub fn t11(set: &PitchClassSet) -> (moved: PitchClassSet)
    ensures
        moved@ == transposition::transposed(set@, 11),
{
    transpose(set, 11)
}

/// Inverts a set around 0: [`invert`] at level 0.
pub fn i0(set: &PitchClassSet) -> (mirrored: PitchClassSet)
    ensures
        mirrored@ == inversion::inverted(set@, 0),
{
    invert(set, 0)
}

/// Inverts a set around 1: [`invert`] at level 1.
pub fn i1(set: &PitchClassSet) -> (mirrored: PitchClassSet)
    ensures
        mirrored@ == inversion::inverted(set@, 1),
{
    invert(set, 1)
}

/// Inverts a set around 2: [`invert`] at level 2.
pub fn i2(set: &PitchClassSet) -> (mirrored: PitchClassSet)
    ensures
        mirrored@ == inversion::inverted(set@, 2),
{
    invert(set, 2)
}

/// Inverts a set around 3: [`invert`] at level 3.
pub fn i3(set: &PitchClassSet) -> (mirrored: PitchClassSet)
    ensures
        mirrored@ == inversion::inverted(set@, 3),
{
    invert(set, 3)
}

/// Inverts a set around 4: [`invert`] at level 4.
pub fn i4(set: &PitchClassSet) -> (mirrored: PitchClassSet)
    ensures
        mirrored@ == inversion::inverted(set@, 4),
{
    invert(set, 4)
}

/// Inverts a set around 5: [`invert`] at level 5.
pub fn i5(set: &PitchClassSet) -> (mirrored: PitchClassSet)
    ensures
        mirrored@ == inversion::inverted(set@, 5),
{
    invert(set, 5)
}

/// Inverts a set around 6: [`invert`] at level 6.
pub fn i6(set: &PitchClassSet) -> (mirrored: PitchClassSet)
    ensures
        mirrored@ == inversion::inverted(set@, 6),
{
    invert(set, 6)
}

/// Inverts a set around 7: [`invert`] at level 7.
pub fn i7(set: &PitchClassSet) -> (mirrored: PitchClassSet)
    ensures
        mirrored@ == inversion::inverted(set@, 7),
{
    invert(set, 7)
}

/// Inverts a set around 8: [`invert`] at level 8.
pub fn i8(set: &PitchClassSet) -> (mirrored: PitchClassSet)
    ensures
        mirrored@ == inversion::inverted(set@, 8),
{
    invert(set, 8)
}

/// Inverts a set around 9: [`invert`] at level 9.
pub fn i9(set: &PitchClassSet) -> (mirrored: PitchClassSet)
    ensures
        mirrored@ == inversion::inverted(set@, 9),
{
    invert(set, 9)
}

/// Inverts a set around 10: [`invert`] at level 10.
pub fn i10(set: &PitchClassSet) -> (mirrored: PitchClassSet)
    ensures
        mirrored@ == inversion::inverted(set@, 10),
{
    invert(set, 10)
}

/// Inverts a set around 11: [`invert`] at level 11.
pub fn i11(set: &PitchClassSet) -> (mirrored: PitchClassSet)
    ensures
        mirrored@ == inversion::inverted(set@, 11),
{
    invert(set, 11)
}

} // verus!
