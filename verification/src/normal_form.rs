//! Reduction of a pitch-class set to its normal form: the most compact of
//! the rotations of its ascending arrangement.

use vstd::prelude::*;
use vstd::relations::sorted_by;
use vstd::seq_lib::{to_multiset_build, to_multiset_insert};
use crate::pitch_class::PitchClass;
use crate::pitch_class_set::PitchClassSet;
use crate::ranking::{
    ascending, lemma_ascending_is, lemma_ascending_sorts, lemma_ranks_before_antisymmetric,
    lemma_ranks_before_reflexive, lemma_ranks_before_total, lemma_ranks_before_transitive,
    lemma_rotated_keeps_elements, lemma_rotation_total_bounded, ordinals, packs_before,
    pitch_order, precedes, ranks_before, rotated, scan_of, span_of,
};
use crate::sequences::{
    as_ints, lemma_lex_le_antisymmetric, lemma_lex_le_reflexive, lemma_total_prefix,
    lemma_total_reverse, lexicographically_le, non_negative, reversed, running_sums, total,
};
use crate::utils::{get_interval_between, intervals, intervals_of};

verus! {

/// Whether `candidate`, read in the given direction, is at least as compact
/// as every rotation of `arranged` in either direction.
pub open spec fn is_most_compact(
    arranged: Seq<PitchClass>,
    candidate: Seq<PitchClass>,
    reversed: bool,
) -> bool {
    forall|by: int, other_reversed: bool|
        1 <= by <= arranged.len() ==> #[trigger] ranks_before(
            candidate,
            reversed,
            rotated(arranged, by),
            other_reversed,
        )
}

/// Whether `form` is the most compact rotation of the ascending arrangement
/// `arranged`; the empty arrangement is its own.
pub open spec fn is_most_compact_rotation(
    arranged: Seq<PitchClass>,
    form: Seq<PitchClass>,
) -> bool {
    if arranged.len() == 0 {
        form.len() == 0
    } else {
        exists|by: int, reversed: bool|
            1 <= by <= arranged.len() && form == #[trigger] rotated(arranged, by)
                && #[trigger] is_most_compact(arranged, form, reversed)
    }
}

/// Whether `form` is the normal form of `set`: the rotation of the ascending
/// arrangement of `set` with the least span and, among those of least span,
/// the one that is packed most tightly.
pub open spec fn is_normal_form(set: Seq<PitchClass>, form: Seq<PitchClass>) -> bool {
    is_most_compact_rotation(ascending(set), form)
}

/// The most compact rotation of an ascending arrangement.
pub open spec fn most_compact_rotation(arranged: Seq<PitchClass>) -> Seq<PitchClass> {
    choose|form: Seq<PitchClass>| is_most_compact_rotation(arranged, form)
}

/// The normal form of a set. Every set has exactly one
/// ([`lemma_normal_form_exists`], [`lemma_normal_form_unique`]).
pub open spec fn normal_form_of(set: Seq<PitchClass>) -> Seq<PitchClass> {
    most_compact_rotation(ascending(set))
}

/// Among the first `upto` rotations of an arrangement, read in either
/// direction, one ranks before all: the result names its rotation and its
/// direction.
proof fn lemma_least_reading(arranged: Seq<PitchClass>, upto: int) -> (least: (int, bool))
    requires
        1 <= upto <= arranged.len(),
    ensures
        1 <= least.0 <= upto,
        forall|by: int, reversed: bool|
            1 <= by <= upto ==> #[trigger] ranks_before(
                rotated(arranged, least.0),
                least.1,
                rotated(arranged, by),
                reversed,
            ),
    decreases upto,
{
    let last = rotated(arranged, upto);
    lemma_ranks_before_total(last, false, last, true);
    lemma_ranks_before_reflexive(last, false);
    lemma_ranks_before_reflexive(last, true);
    let own = !ranks_before(last, false, last, true);
    assert(forall|reversed: bool| ranks_before(last, own, last, reversed));
    if upto == 1 {
        (upto, own)
    } else {
        let earlier = lemma_least_reading(arranged, upto - 1);
        let held = rotated(arranged, earlier.0);
        lemma_ranks_before_total(held, earlier.1, last, own);
        if ranks_before(held, earlier.1, last, own) {
            assert forall|by: int, reversed: bool| 1 <= by <= upto implies #[trigger] ranks_before(
                held,
                earlier.1,
                rotated(arranged, by),
                reversed,
            ) by {
                if by == upto {
                    lemma_ranks_before_transitive(held, earlier.1, last, own, last, reversed);
                }
            }
            earlier
        } else {
            assert forall|by: int, reversed: bool| 1 <= by <= upto implies #[trigger] ranks_before(
                last,
                own,
                rotated(arranged, by),
                reversed,
            ) by {
                if by < upto {
                    let other = rotated(arranged, by);
                    assert(ranks_before(held, earlier.1, other, reversed));
                    lemma_ranks_before_transitive(last, own, held, earlier.1, other, reversed);
                }
            }
            (upto, own)
        }
    }
}

/// Every set has a normal form, and [`normal_form_of`] is one.
pub proof fn lemma_normal_form_exists(set: Seq<PitchClass>)
    ensures
        is_normal_form(set, normal_form_of(set)),
{
    let arranged = ascending(set);
    if arranged.len() == 0 {
        assert(is_most_compact_rotation(arranged, Seq::<PitchClass>::empty()));
    } else {
        let least = lemma_least_reading(arranged, arranged.len() as int);
        let form = rotated(arranged, least.0);
        assert(is_most_compact(arranged, form, least.1));
        assert(is_most_compact_rotation(arranged, form));
    }
}

/// A set has no more than one normal form.
pub proof fn lemma_normal_form_unique(
    set: Seq<PitchClass>,
    a: Seq<PitchClass>,
    b: Seq<PitchClass>,
)
    requires
        is_normal_form(set, a),
        is_normal_form(set, b),
    ensures
        a == b,
{
    let arranged = ascending(set);
    if arranged.len() == 0 {
        assert(a =~= b);
    } else {
        let (by_a, reversed_a) = choose|by: int, reversed: bool|
            1 <= by <= arranged.len() && a == #[trigger] rotated(arranged, by)
                && #[trigger] is_most_compact(arranged, a, reversed);
        let (by_b, reversed_b) = choose|by: int, reversed: bool|
            1 <= by <= arranged.len() && b == #[trigger] rotated(arranged, by)
                && #[trigger] is_most_compact(arranged, b, reversed);
        assert(ranks_before(a, reversed_a, rotated(arranged, by_b), reversed_b));
        assert(ranks_before(b, reversed_b, rotated(arranged, by_a), reversed_a));
        lemma_ranks_before_antisymmetric(a, reversed_a, b, reversed_b);
    }
}

/// A normal form holds the elements of the set it came from, each as often
/// as the set does, and so has the same ascending arrangement.
pub proof fn lemma_normal_form_keeps_elements(set: Seq<PitchClass>, form: Seq<PitchClass>)
    requires
        is_normal_form(set, form),
    ensures
        form.len() == set.len(),
        form.to_multiset() == set.to_multiset(),
        ascending(form) == ascending(set),
{
    let arranged = ascending(set);
    lemma_ascending_sorts(set);
    if arranged.len() == 0 {
        assert(form =~= arranged);
    } else {
        let (by, reversed) = choose|by: int, reversed: bool|
            1 <= by <= arranged.len() && form == #[trigger] rotated(arranged, by)
                && #[trigger] is_most_compact(arranged, form, reversed);
        lemma_rotated_keeps_elements(arranged, by);
    }
    lemma_ascending_is(form, arranged);
}

/// The normal form of a set depends on its elements alone, not on the order
/// in which they are given.
pub proof fn lemma_normal_form_ignores_order(a: Seq<PitchClass>, b: Seq<PitchClass>)
    requires
        a.to_multiset() == b.to_multiset(),
    ensures
        normal_form_of(a) == normal_form_of(b),
{
    lemma_ascending_sorts(b);
    lemma_ascending_is(a, ascending(b));
}

/// Normal form is idempotent: the normal form of a normal form is that
/// normal form again.
pub proof fn lemma_normal_form_idempotent(set: Seq<PitchClass>)
    ensures
        normal_form_of(normal_form_of(set)) == normal_form_of(set),
        is_normal_form(normal_form_of(set), normal_form_of(set)),
{
    lemma_normal_form_exists(set);
    lemma_normal_form_keeps_elements(set, normal_form_of(set));
}

/// The intervals of a normal form add up to no more than an octave.
pub proof fn lemma_normal_form_total_bounded(set: Seq<PitchClass>, form: Seq<PitchClass>)
    requires
        is_normal_form(set, form),
    ensures
        0 <= total(intervals_of(form)) <= 12,
{
    let arranged = ascending(set);
    lemma_ascending_sorts(set);
    if arranged.len() == 0 {
        assert(form =~= rotated(arranged, 0));
        lemma_rotation_total_bounded(arranged, 0);
    } else {
        let (by, reversed) = choose|by: int, reversed: bool|
            1 <= by <= arranged.len() && form == #[trigger] rotated(arranged, by)
                && #[trigger] is_most_compact(arranged, form, reversed);
        lemma_rotation_total_bounded(arranged, by);
    }
}

/// One ordering of a set together with what the search reads from it: the
/// intervals between its neighbours and its span.
#[derive(Debug, PartialEq, Eq)]
pub struct Internal {
    set: PitchClassSet,
    intervals: Vec<u32>,
    total_span: u32,
}

impl Internal {
    /// The ordering that this value describes.
    pub closed spec fn candidate(&self) -> Seq<PitchClass> {
        self.set@
    }

    /// The intervals that this value holds.
    pub closed spec fn gaps(&self) -> Seq<int> {
        as_ints(self.intervals@)
    }

    /// The span that this value holds.
    pub closed spec fn span(&self) -> int {
        self.total_span as int
    }

    /// Whether the intervals and the span that this value holds are those of
    /// its ordering.
    pub open spec fn wf(&self) -> bool {
        &&& self.gaps() == intervals_of(self.candidate())
        &&& self.span() == span_of(self.candidate())
    }

    /// Describes the ordering `set`: computes its intervals and its span.
    pub fn new(set: PitchClassSet) -> (made: Self)
        ensures
            made.candidate() == set@,
            made.wf(),
    {
        let total_span: u32 = total_span(&set);
        let intervals = intervals(set.set().as_slice());
        Self { set, intervals, total_span }
    }
}

/// Whether the interval scans of an ordering can be computed: its stored
/// data is sound and its intervals add up within the range of the machine
/// integers.
spec fn scannable(set: &Internal) -> bool {
    set.wf() && total(intervals_of(set.candidate())) <= u32::MAX
}

/// Whether `entry` is the reading of its ordering in its direction: an
/// interval scan, the direction, and the ordering itself.
spec fn is_entry(entry: (Vec<u32>, bool, &Internal)) -> bool {
    entry.2.wf() && as_ints(entry.0@) == scan_of(entry.2.candidate(), entry.1)
}

/// Whether `best`, read in the given direction, is packed at least as
/// tightly as each of `sets` in either direction.
spec fn packs_first(sets: Seq<&Internal>, best: Seq<PitchClass>, reversed: bool) -> bool {
    forall|i: int, other_reversed: bool|
        0 <= i < sets.len() ==> #[trigger] packs_before(
            best,
            reversed,
            sets[i].candidate(),
            other_reversed,
        )
}

/// Computes the span of an ordering; the empty ordering has span 0.
fn total_span(set: &PitchClassSet) -> (span: u32)
    ensures
        span as int == span_of(set@),
        span < 12,
{
    let elements = set.set().as_slice();
    match (elements.first(), elements.last()) {
        (Some(a), Some(b)) => get_interval_between(a.to_u32(), b.to_u32()),
        _ => 0,
    }
}

/// Reduces a set to its normal form.
///
/// The elements are arranged in ascending order, every rotation of that
/// arrangement is formed, and the rotation of least span is returned. Where
/// several share the least span, each is read forward and reversed, and the
/// one with the least interval scan wins, a forward reading before a
/// reversed one. The empty set is its own normal form.
pub fn from(set: &PitchClassSet) -> (form: PitchClassSet)
    ensures
        is_normal_form(set@, form@),
        form@ == normal_form_of(set@),
        form@.to_multiset() == set@.to_multiset(),
{
    let sorted = sort_ascending(set.set());
    proof {
        lemma_normal_form_exists(set@);
        lemma_ascending_sorts(set@);
    }
    if sorted.len() == 0 {
        let form = PitchClassSet::new(sorted);
        proof {
            lemma_normal_form_unique(set@, form@, normal_form_of(set@));
            lemma_normal_form_keeps_elements(set@, form@);
        }
        return form;
    }
    let mut rotations: Vec<Internal> = Vec::new();
    for i in 0..sorted.len()
        invariant
            rotations@.len() == i,
            forall|j: int|
                0 <= j < i ==> (#[trigger] rotations@[j]).wf() && rotations@[j].candidate()
                    == rotated(sorted@, j + 1),
    {
        rotations.push(Internal::new(create_rotation(sorted.as_slice(), i + 1)));
    }

    let mut min_span: u32 = rotations[0].total_span;
    let ghost mut narrowest: int = 0;
    for i in 1..rotations.len()
        invariant
            0 <= narrowest < rotations@.len(),
            min_span == rotations@[narrowest].total_span,
            forall|j: int| 0 <= j < i ==> min_span <= (#[trigger] rotations@[j]).total_span,
    {
        if rotations[i].total_span < min_span {
            min_span = rotations[i].total_span;
            proof {
                narrowest = i as int;
            }
        }
    }

    let mut rotations_with_min_span: Vec<&Internal> = Vec::new();
    let ghost mut origin: Seq<int> = Seq::empty();
    let ghost mut place: Seq<int> = Seq::empty();
    for i in 0..rotations.len()
        invariant
            origin.len() == rotations_with_min_span@.len(),
            place.len() == i,
            0 <= narrowest < rotations@.len(),
            min_span == rotations@[narrowest].total_span,
            narrowest < i ==> rotations_with_min_span@.len() > 0,
            forall|m: int|
                0 <= m < origin.len() ==> 0 <= #[trigger] origin[m] < i
                    && *rotations_with_min_span@[m] == rotations@[origin[m]]
                    && rotations@[origin[m]].total_span == min_span,
            forall|j: int|
                0 <= j < i && (#[trigger] rotations@[j]).total_span == min_span ==> 0 <= place[j]
                    < rotations_with_min_span@.len() && *rotations_with_min_span@[place[j]]
                    == rotations@[j],
    {
        if rotations[i].total_span == min_span {
            proof {
                origin = origin.push(i as int);
                place = place.push(rotations_with_min_span@.len() as int);
            }
            rotations_with_min_span.push(&rotations[i]);
        } else {
            proof {
                place = place.push(0);
            }
        }
    }

    proof {
        assert forall|m: int| 0 <= m < rotations_with_min_span@.len() implies scannable(
            #[trigger] rotations_with_min_span@[m],
        ) by {
            assert(rotations@[origin[m]].wf());
            lemma_rotation_total_bounded(sorted@, origin[m] + 1);
        }
    }
    let ghost tied = rotations_with_min_span@;
    let best = find_normal_form(rotations_with_min_span);
    let form = best.set.clone();
    proof {
        let (at, reversed) = choose|i: int, reversed: bool|
            0 <= i < tied.len() && best == #[trigger] tied[i] && #[trigger] packs_first(
                tied,
                best.candidate(),
                reversed,
            );
        let by = origin[at] + 1;
        assert(rotations@[origin[at]].wf());
        assert(form@ == rotated(sorted@, by));
        assert(rotations@[narrowest].wf());
        assert forall|other: int, other_reversed: bool|
            1 <= other <= sorted@.len() implies #[trigger] ranks_before(
            form@,
            reversed,
            rotated(sorted@, other),
            other_reversed,
        ) by {
            let rival = rotations@[other - 1];
            assert(rival.wf() && rival.candidate() == rotated(sorted@, other));
            if rival.total_span == min_span {
                assert(tied[place[other - 1]].candidate() == rival.candidate());
                assert(packs_before(
                    best.candidate(),
                    reversed,
                    tied[place[other - 1]].candidate(),
                    other_reversed,
                ));
            }
        }
        assert(is_most_compact(sorted@, form@, reversed));
        assert(is_most_compact_rotation(sorted@, form@));
        lemma_normal_form_unique(set@, form@, normal_form_of(set@));
        lemma_normal_form_keeps_elements(set@, form@);
    }
    form
}

/// Arranges the elements of a set in ascending order.
fn sort_ascending(set: &Vec<PitchClass>) -> (sorted: Vec<PitchClass>)
    ensures
        sorted@ == ascending(set@),
{
    let mut sorted: Vec<PitchClass> = Vec::new();
    let mut i: usize = 0;
    assert(set@.take(0) =~= sorted@);
    while i < set.len()
        invariant
            i <= set.len(),
            sorted_by(sorted@, pitch_order()),
            sorted@.to_multiset() == set@.take(i as int).to_multiset(),
        decreases set.len() - i,
    {
        let next = set[i];
        let mut at: usize = 0;
        while at < sorted.len() && comes_before(sorted[at], next)
            invariant
                at <= sorted.len(),
                forall|j: int| 0 <= j < at ==> precedes(sorted@[j], next),
            decreases sorted.len() - at,
        {
            at += 1;
        }
        proof {
            let before = sorted@;
            let after = before.insert(at as int, next);
            assert forall|x: int, y: int| 0 <= x < y < after.len() implies pitch_order()(
                after[x],
                after[y],
            ) by {
                if y < at {
                    assert(pitch_order()(before[x], before[y]));
                } else if y == at {
                } else if x < at {
                    assert(pitch_order()(before[x], before[y - 1]));
                } else if x == at {
                    assert(y - 1 > at ==> pitch_order()(before[at as int], before[y - 1]));
                } else {
                    assert(pitch_order()(before[x - 1], before[y - 1]));
                }
            }
            to_multiset_insert(before, at as int, next);
            assert(set@.take(i + 1) =~= set@.take(i as int).push(next));
            to_multiset_build(set@.take(i as int), next);
        }
        sorted.insert(at, next);
        i += 1;
    }
    proof {
        assert(set@.take(i as int) =~= set@);
        lemma_ascending_is(set@, sorted@);
    }
    sorted
}

/// Decides [`precedes`].
fn comes_before(a: PitchClass, b: PitchClass) -> (before: bool)
    ensures
        before == precedes(a, b),
{
    let pitch_a: u32 = a.to_u32();
    let pitch_b: u32 = b.to_u32();
    pitch_a < pitch_b || (pitch_a == pitch_b && a.declared_position() <= b.declared_position())
}

/// Turns `set` to the right by `rotation` places.
fn create_rotation(set: &[PitchClass], rotation: usize) -> (turned: PitchClassSet)
    requires
        rotation <= set@.len(),
    ensures
        turned@ == rotated(set@, rotation as int),
{
    let split: usize = set.len() - rotation;
    let mut turned: Vec<PitchClass> = Vec::new();
    let mut i: usize = split;
    while i < set.len()
        invariant
            split <= i <= set.len(),
            turned@ == set@.subrange(split as int, i as int),
        decreases set.len() - i,
    {
        turned.push(set[i]);
        assert(turned@ =~= set@.subrange(split as int, i + 1));
        i += 1;
    }
    let mut j: usize = 0;
    while j < split
        invariant
            j <= split <= set.len(),
            turned@ == set@.subrange(split as int, set.len() as int) + set@.subrange(0, j as int),
        decreases split - j,
    {
        turned.push(set[j]);
        assert(turned@ =~= set@.subrange(split as int, set.len() as int) + set@.subrange(
            0,
            j + 1,
        ));
        j += 1;
    }
    PitchClassSet::new(turned)
}

/// Picks the normal form among the orderings of least span: the only one,
/// or the one that is packed most tightly.
fn find_normal_form<'a>(candidates: Vec<&'a Internal>) -> (best: &'a Internal)
    requires
        candidates.len() > 0,
        forall|i: int| 0 <= i < candidates.len() ==> scannable(candidates[i]),
    ensures
        exists|i: int, reversed: bool|
            0 <= i < candidates.len() && best == #[trigger] candidates[i] && #[trigger] packs_first(
                candidates@,
                best.candidate(),
                reversed,
            ),
{
    if candidates.len() == 1 {
        let best = candidates[0];
        proof {
            let only = best.candidate();
            lemma_ranks_before_total(only, false, only, true);
            lemma_ranks_before_reflexive(only, false);
            lemma_ranks_before_reflexive(only, true);
            let reversed = !packs_before(only, false, only, true);
            assert(packs_first(candidates@, only, reversed));
            assert(best == candidates@[0]);
        }
        best
    } else {
        find_best_packed_candidate(candidates)
    }
}

/// Finds, among orderings of one span, the one that is packed most tightly:
/// reads each forward and reversed, and returns the ordering of the least
/// reading.
fn find_best_packed_candidate<'a>(sets: Vec<&'a Internal>) -> (best: &'a Internal)
    requires
        sets.len() > 0,
        forall|i: int| 0 <= i < sets.len() ==> scannable(sets[i]),
    ensures
        exists|i: int, reversed: bool|
            0 <= i < sets.len() && best == #[trigger] sets[i] && #[trigger] packs_first(
                sets@,
                best.candidate(),
                reversed,
            ),
{
    let mut all_interval_possibilities: Vec<(Vec<u32>, bool, &Internal)> = Vec::new();
    for i in 0..sets.len()
        invariant
            forall|k: int| 0 <= k < sets.len() ==> scannable(sets[k]),
            all_interval_possibilities@.len() == 2 * i,
            forall|j: int|
                0 <= j < all_interval_possibilities@.len() ==> {
                    let entry = #[trigger] all_interval_possibilities@[j];
                    is_entry(entry) && entry.2 == sets[j / 2] && entry.1 == (j % 2 == 1)
                },
    {
        let set = sets[i];
        all_interval_possibilities.push(set_with_interval_scan(set, false));
        all_interval_possibilities.push(set_with_interval_scan(set, true));
    }
    let mut least: usize = 0;
    proof {
        let first = all_interval_possibilities@[0];
        lemma_ranks_before_reflexive(first.2.candidate(), first.1);
    }
    for i in 1..all_interval_possibilities.len()
        invariant
            least < all_interval_possibilities@.len(),
            forall|j: int|
                0 <= j < all_interval_possibilities@.len() ==> is_entry(
                    #[trigger] all_interval_possibilities@[j],
                ),
            forall|j: int|
                0 <= j < i ==> packs_before(
                    all_interval_possibilities@[least as int].2.candidate(),
                    all_interval_possibilities@[least as int].1,
                    (#[trigger] all_interval_possibilities@[j]).2.candidate(),
                    all_interval_possibilities@[j].1,
                ),
    {
        let ghost held = all_interval_possibilities@[least as int];
        let ghost next = all_interval_possibilities@[i as int];
        if !entry_le(&all_interval_possibilities[least], &all_interval_possibilities[i]) {
            proof {
                lemma_ranks_before_total(held.2.candidate(), held.1, next.2.candidate(), next.1);
                lemma_ranks_before_reflexive(next.2.candidate(), next.1);
                assert forall|j: int| 0 <= j < i implies packs_before(
                    next.2.candidate(),
                    next.1,
                    (#[trigger] all_interval_possibilities@[j]).2.candidate(),
                    all_interval_possibilities@[j].1,
                ) by {
                    let other = all_interval_possibilities@[j];
                    lemma_ranks_before_transitive(
                        next.2.candidate(),
                        next.1,
                        held.2.candidate(),
                        held.1,
                        other.2.candidate(),
                        other.1,
                    );
                }
            }
            least = i;
        }
    }
    let best = all_interval_possibilities[least].2;
    proof {
        let chosen = all_interval_possibilities@[least as int];
        assert forall|i: int, other_reversed: bool| 0 <= i < sets@.len() implies #[trigger] packs_before(
            best.candidate(),
            chosen.1,
            sets@[i].candidate(),
            other_reversed,
        ) by {
            let j = if other_reversed {
                2 * i + 1
            } else {
                2 * i
            };
            let other = all_interval_possibilities@[j];
            assert(other.2 == sets@[i] && other.1 == other_reversed);
        }
        assert(packs_first(sets@, best.candidate(), chosen.1));
        assert(best == sets@[least as int / 2]);
    }
    best
}

/// Reads an ordering in one direction: computes the interval scan of its
/// intervals, reversed first if `is_reversed`.
fn set_with_interval_scan(set: &Internal, is_reversed: bool) -> (entry: (Vec<u32>, bool, &Internal))
    requires
        scannable(set),
    ensures
        is_entry(entry),
        entry.1 == is_reversed,
        entry.2 == set,
{
    let mut intervals = set.intervals.clone();
    if is_reversed {
        intervals = reversed(&intervals);
        proof {
            assert(as_ints(intervals@) =~= as_ints(set.intervals@).reverse());
            lemma_total_reverse(as_ints(set.intervals@));
        }
    }
    let interval_scan = create_interval_scan(intervals);
    (interval_scan, is_reversed, set)
}

/// Computes the running sums of a sequence of intervals.
pub(crate) fn create_interval_scan(intervals: Vec<u32>) -> (scan: Vec<u32>)
    requires
        total(as_ints(intervals@)) <= u32::MAX,
    ensures
        as_ints(scan@) == running_sums(as_ints(intervals@)),
{
    let ghost values = as_ints(intervals@);
    let mut scan: Vec<u32> = Vec::new();
    let mut sum: u32 = 0;
    assert(values.take(0) =~= Seq::<int>::empty());
    for i in 0..intervals.len()
        invariant
            values == as_ints(intervals@),
            non_negative(values),
            total(values) <= u32::MAX,
            scan@.len() == i,
            sum as int == total(values.take(i as int)),
            forall|j: int| 0 <= j < i ==> scan@[j] as int == total(values.take(j + 1)),
    {
        proof {
            lemma_total_prefix(values, i + 1);
            assert(values.take(i + 1).drop_last() =~= values.take(i as int));
        }
        sum = sum + intervals[i];
        scan.push(sum);
    }
    assert(as_ints(scan@) =~= running_sums(values));
    scan
}

/// Lists the positions of declaration of the elements of an ordering.
fn declared_positions(set: &Vec<PitchClass>) -> (positions: Vec<u32>)
    ensures
        as_ints(positions@) == ordinals(set@),
{
    let mut positions: Vec<u32> = Vec::new();
    for i in 0..set.len()
        invariant
            positions@.len() == i,
            forall|j: int| 0 <= j < i ==> positions@[j] as int == set@[j].ordinal(),
    {
        positions.push(set[i].declared_position());
    }
    assert(as_ints(positions@) =~= ordinals(set@));
    positions
}

/// Decides whether one reading is packed at least as tightly as another.
fn entry_le(a: &(Vec<u32>, bool, &Internal), b: &(Vec<u32>, bool, &Internal)) -> (le: bool)
    requires
        is_entry(*a),
        is_entry(*b),
    ensures
        le == packs_before(a.2.candidate(), a.1, b.2.candidate(), b.1),
{
    let a_le_b = lexicographically_le(&a.0, &b.0);
    let b_le_a = lexicographically_le(&b.0, &a.0);
    proof {
        if a_le_b && b_le_a {
            lemma_lex_le_antisymmetric(as_ints(a.0@), as_ints(b.0@));
        }
        lemma_lex_le_reflexive(as_ints(a.0@));
    }
    if !(a_le_b && b_le_a) {
        a_le_b
    } else if a.1 != b.1 {
        !a.1
    } else {
        let positions_a = declared_positions(a.2.set.set());
        let positions_b = declared_positions(b.2.set.set());
        lexicographically_le(&positions_a, &positions_b)
    }
}

} // verus!
