//! Derivation of the prime form of a set: the interval profile of its normal
//! form, read in the direction that packs it to the left and laid out from 0.

use vstd::prelude::*;
use crate::normal_form;
use crate::normal_form::{
    lemma_normal_form_exists, lemma_normal_form_keeps_elements, lemma_normal_form_total_bounded,
    normal_form_of,
};
use crate::pitch_class::PitchClass;
use crate::pitch_class_set::PitchClassSet;
use crate::sequences::{
    as_ints, lemma_total_concat, lemma_total_prefix, lemma_total_reverse, lemma_total_single,
    lex_le, lexicographically_le, reversed, running_sums, total,
};
use crate::utils;
use crate::utils::intervals_of;

verus! {

/// The intervals of an ordering in the direction that packs the small ones
/// to the left: as they stand or reversed, whichever is lexicographically
/// smaller.
pub open spec fn left_packed(form: Seq<PitchClass>) -> Seq<int> {
    let forward = intervals_of(form);
    let backward = forward.reverse();
    if lex_le(forward, backward) {
        forward
    } else {
        backward
    }
}

/// The prime form that belongs to a normal form: 0, followed by the running
/// sums of the left-packed intervals of the normal form.
pub open spec fn prime_form_of_normal(form: Seq<PitchClass>) -> Seq<int> {
    running_sums(seq![0int] + left_packed(form))
}

/// The prime form of a set: that of its normal form.
pub open spec fn prime_form_of(set: Seq<PitchClass>) -> Seq<int> {
    prime_form_of_normal(normal_form_of(set))
}

/// The prime form of a set begins with 0 and has one entry for each element
/// of the set, or the single entry 0 if the set is empty; its entries lie
/// within an octave of 0.
pub proof fn lemma_prime_form_shape(set: Seq<PitchClass>)
    ensures
        prime_form_of(set).len() == if set.len() == 0 {
            1
        } else {
            set.len()
        },
        prime_form_of(set)[0] == 0,
        forall|i: int|
            0 <= i < prime_form_of(set).len() ==> 0 <= #[trigger] prime_form_of(set)[i] <= 12,
{
    let form = normal_form_of(set);
    lemma_normal_form_exists(set);
    lemma_normal_form_keeps_elements(set, form);
    lemma_normal_form_total_bounded(set, form);
    lemma_total_reverse(intervals_of(form));
    let laid_out = seq![0int] + left_packed(form);
    lemma_total_concat(seq![0int], left_packed(form));
    lemma_total_single(0);
    assert(laid_out.take(1) =~= seq![0int]);
    assert forall|i: int| 0 <= i < prime_form_of(set).len() implies 0 <= #[trigger] prime_form_of(
        set,
    )[i] <= 12 by {
        lemma_total_prefix(laid_out, i + 1);
    }
}

/// Derives the prime form of a set, the representative of its class under
/// transposition and inversion.
///
/// The result starts at 0 and has one entry for each element of the set; for
/// the empty set it is the single entry 0.
pub fn from(set: &PitchClassSet) -> (prime: Vec<u32>)
    ensures
        as_ints(prime@) == prime_form_of(set@),
        prime@.len() > 0,
        prime@[0] == 0,
        set@.len() > 0 ==> prime@.len() == set@.len(),
{
    let nf: PitchClassSet = normal_form::from(set);
    let intervals: Vec<u32> = utils::intervals(nf.set().as_slice());
    let reversed: Vec<u32> = reversed(&intervals);
    proof {
        assert(as_ints(reversed@) =~= as_ints(intervals@).reverse());
    }
    let mut left_packed = if lexicographically_le(&intervals, &reversed) {
        intervals
    } else {
        reversed
    };
    let ghost chosen = as_ints(left_packed@);
    left_packed.insert(0, 0);
    proof {
        assert(as_ints(left_packed@) =~= seq![0int] + chosen);
        lemma_normal_form_total_bounded(set@, nf@);
        lemma_total_reverse(intervals_of(nf@));
        lemma_total_concat(seq![0int], chosen);
        lemma_total_single(0);
    }
    let prime = normal_form::create_interval_scan(left_packed);
    proof {
        lemma_prime_form_shape(set@);
        assert(as_ints(prime@).len() == prime@.len());
        assert(as_ints(prime@)[0] == prime@[0]);
    }
    prime
}

} // verus!
