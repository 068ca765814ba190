//! Intervals between pitches and along sequences of pitch classes.

use vstd::prelude::*;
use vstd::slice::slice_subrange;
use crate::pitch_class::PitchClass;
use crate::sequences::as_ints;

verus! {

/// The ascending distance, in semitones, from pitch `a` up to pitch `b` on
/// the circle of twelve pitch classes: never negative, and never the shorter
/// way down.
pub open spec fn interval_between(a: int, b: int) -> int {
    (b - a) % 12
}

/// The intervals between neighbours of a sequence: entry `i` is the
/// ascending interval from element `i` to element `i + 1`, so a sequence of
/// `n` elements has `n - 1` of them, and one of fewer than two elements none.
pub open spec fn intervals_of(set: Seq<PitchClass>) -> Seq<int> {
    if set.len() == 0 {
        Seq::empty()
    } else {
        Seq::new(
            (set.len() - 1) as nat,
            |i: int| interval_between(set[i].pitch(), set[i + 1].pitch()),
        )
    }
}

/// Computes the ascending interval from each element of `set` to the next.
pub fn intervals(set: &[PitchClass]) -> (between: Vec<u32>)
    ensures
        as_ints(between@) == intervals_of(set@),
{
    let mut between: Vec<u32> = Vec::new();
    if set.len() < 2 {
        assert(as_ints(between@) =~= intervals_of(set@));
        return between;
    }
    let mut i: usize = 0;
    while i < set.len() - 1
        invariant
            set.len() >= 2,
            i <= set.len() - 1,
            between@.len() == i,
            forall|j: int|
                0 <= j < i ==> between@[j] as int == interval_between(
                    set@[j].pitch(),
                    set@[j + 1].pitch(),
                ),
        decreases set.len() - i,
    {
        let pair = slice_subrange(set, i, i + 2);
        between.push(find_interval(pair));
        i += 1;
    }
    assert(as_ints(between@) =~= intervals_of(set@));
    between
}

/// Computes the ascending interval from the first to the second element of
/// a window of two.
fn find_interval(pair: &[PitchClass]) -> (interval: u32)
    requires
        pair@.len() >= 2,
    ensures
        interval as int == interval_between(pair@[0].pitch(), pair@[1].pitch()),
        interval < 12,
{
    let a = pair[0].to_u32();
    let b = pair[1].to_u32();
    get_interval_between(a, b)
}

/// Computes the ascending interval from `a` to `b`. Both arguments are read
/// modulo twelve, so the result always lies in `0..12`.
pub fn get_interval_between(a: u32, b: u32) -> (interval: u32)
    ensures
        interval as int == interval_between(a as int, b as int),
        interval < 12,
{
    let low: u32 = a % 12;
    let high: u32 = b % 12;
    if high >= low {
        high - low
    } else {
        (high + 12) - low
    }
}

} // verus!
