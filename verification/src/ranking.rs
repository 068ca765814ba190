//! How the orderings of a set are ranked for compactness: the ascending
//! arrangement, its rotations, their spans and interval scans, and the order
//! that these induce, with the facts about it.

use vstd::prelude::*;
use vstd::relations::{sorted_by, total_ordering};
use vstd::seq_lib::{lemma_seq_union_to_multiset_commutative, lemma_sorted_unique, to_multiset_len};
use crate::pitch_class::PitchClass;
use crate::sequences::{
    lemma_lex_le_antisymmetric, lemma_lex_le_reflexive, lemma_lex_le_total,
    lemma_lex_le_transitive, lemma_total_concat, lemma_total_single, lex_le, running_sums, total,
};
use crate::utils::{interval_between, intervals_of};

verus! {

/// The order in which pitch classes are arranged before they are rotated:
/// by pitch, and among spellings of one pitch by position of declaration.
pub open spec fn precedes(a: PitchClass, b: PitchClass) -> bool {
    a.pitch() < b.pitch() || (a.pitch() == b.pitch() && a.ordinal() <= b.ordinal())
}

/// [`precedes`] as a relation that can be handed to the sequence library.
pub open spec fn pitch_order() -> spec_fn(PitchClass, PitchClass) -> bool {
    |a: PitchClass, b: PitchClass| precedes(a, b)
}

/// The ascending arrangement of a set: its elements, each as often as the
/// set holds it, in the order of [`precedes`].
pub open spec fn ascending(set: Seq<PitchClass>) -> Seq<PitchClass> {
    set.sort_by(pitch_order())
}

/// The set turned to the right by `by` places: its last `by` elements, in
/// order, followed by the others.
pub open spec fn rotated(set: Seq<PitchClass>, by: int) -> Seq<PitchClass> {
    set.subrange(set.len() - by, set.len() as int) + set.subrange(0, set.len() - by)
}

/// The span of an ordering: the ascending interval from its first element to
/// its last, and 0 for the empty ordering.
pub open spec fn span_of(set: Seq<PitchClass>) -> int {
    if set.len() == 0 {
        0
    } else {
        interval_between(set.first().pitch(), set.last().pitch())
    }
}

/// The positions of declaration of the elements of an ordering.
pub open spec fn ordinals(set: Seq<PitchClass>) -> Seq<int> {
    set.map_values(|spelling: PitchClass| spelling.ordinal())
}

/// The interval scan of an ordering: the running sums of its intervals, read
/// forward or, if `reversed`, from the last interval to the first.
pub open spec fn scan_of(set: Seq<PitchClass>, reversed: bool) -> Seq<int> {
    if reversed {
        running_sums(intervals_of(set).reverse())
    } else {
        running_sums(intervals_of(set))
    }
}

/// Whether ordering `a`, read in one direction, is packed at least as
/// tightly as ordering `b`, read in another. The smaller interval scan
/// decides; with equal scans the forward reading comes first; with equal
/// directions too, the ordering whose spellings were declared earlier.
pub open spec fn packs_before(
    a: Seq<PitchClass>,
    a_reversed: bool,
    b: Seq<PitchClass>,
    b_reversed: bool,
) -> bool {
    let scan_a = scan_of(a, a_reversed);
    let scan_b = scan_of(b, b_reversed);
    if scan_a != scan_b {
        lex_le(scan_a, scan_b)
    } else if a_reversed != b_reversed {
        !a_reversed
    } else {
        lex_le(ordinals(a), ordinals(b))
    }
}

/// Whether ordering `a` is at least as compact as ordering `b`: the smaller
/// span decides, and [`packs_before`] between orderings of equal span.
pub open spec fn ranks_before(
    a: Seq<PitchClass>,
    a_reversed: bool,
    b: Seq<PitchClass>,
    b_reversed: bool,
) -> bool {
    span_of(a) < span_of(b) || (span_of(a) == span_of(b) && packs_before(
        a,
        a_reversed,
        b,
        b_reversed,
    ))
}

/// Whether the pitches of an ordering never fall from one element to a
/// later one.
spec fn rising(set: Seq<PitchClass>) -> bool {
    forall|i: int, j: int| 0 <= i <= j < set.len() ==> set[i].pitch() <= set[j].pitch()
}

/// [`precedes`] is a total order on spellings.
pub proof fn lemma_pitch_order_total()
    ensures
        total_ordering(pitch_order()),
{
    assert forall|a: PitchClass, b: PitchClass|
        #[trigger] pitch_order()(a, b) && #[trigger] pitch_order()(b, a) implies a == b by {
        crate::pitch_class::lemma_ordinal_injective(a, b);
    }
}

/// The ascending arrangement of a set is in the order of [`precedes`] and
/// holds the elements of the set, each as often as the set does.
pub proof fn lemma_ascending_sorts(set: Seq<PitchClass>)
    ensures
        sorted_by(ascending(set), pitch_order()),
        ascending(set).to_multiset() == set.to_multiset(),
        ascending(set).len() == set.len(),
{
    lemma_pitch_order_total();
    set.lemma_sort_by_ensures(pitch_order());
    to_multiset_len(set);
    to_multiset_len(ascending(set));
}

/// The ascending arrangement of a set is the one sequence in the order of
/// [`precedes`] that holds the elements of the set, each as often as the set
/// does.
pub proof fn lemma_ascending_is(set: Seq<PitchClass>, arranged: Seq<PitchClass>)
    requires
        sorted_by(arranged, pitch_order()),
        arranged.to_multiset() == set.to_multiset(),
    ensures
        ascending(set) == arranged,
{
    lemma_pitch_order_total();
    set.lemma_sort_by_ensures(pitch_order());
    lemma_sorted_unique(ascending(set), arranged, pitch_order());
}

/// Orderings whose spellings were declared at the same positions are the
/// same ordering.
pub proof fn lemma_ordinals_injective(a: Seq<PitchClass>, b: Seq<PitchClass>)
    requires
        ordinals(a) == ordinals(b),
    ensures
        a == b,
{
    assert(a.len() == ordinals(a).len());
    assert(b.len() == ordinals(b).len());
    assert forall|i: int| 0 <= i < a.len() implies a[i] == b[i] by {
        assert(ordinals(a)[i] == a[i].ordinal());
        assert(ordinals(b)[i] == b[i].ordinal());
        crate::pitch_class::lemma_ordinal_injective(a[i], b[i]);
    }
    assert(a =~= b);
}

/// Every reading of an ordering ranks before itself.
pub proof fn lemma_ranks_before_reflexive(a: Seq<PitchClass>, a_reversed: bool)
    ensures
        packs_before(a, a_reversed, a, a_reversed),
        ranks_before(a, a_reversed, a, a_reversed),
{
    lemma_lex_le_reflexive(ordinals(a));
}

/// Of two readings of orderings, one ranks before the other.
pub proof fn lemma_ranks_before_total(
    a: Seq<PitchClass>,
    a_reversed: bool,
    b: Seq<PitchClass>,
    b_reversed: bool,
)
    ensures
        packs_before(a, a_reversed, b, b_reversed) || packs_before(b, b_reversed, a, a_reversed),
        ranks_before(a, a_reversed, b, b_reversed) || ranks_before(b, b_reversed, a, a_reversed),
{
    lemma_lex_le_total(scan_of(a, a_reversed), scan_of(b, b_reversed));
    lemma_lex_le_total(ordinals(a), ordinals(b));
}

/// Ranking is transitive, between orderings of any span and between
/// orderings of one span.
pub proof fn lemma_ranks_before_transitive(
    a: Seq<PitchClass>,
    a_reversed: bool,
    b: Seq<PitchClass>,
    b_reversed: bool,
    c: Seq<PitchClass>,
    c_reversed: bool,
)
    ensures
        packs_before(a, a_reversed, b, b_reversed) && packs_before(b, b_reversed, c, c_reversed)
            ==> packs_before(a, a_reversed, c, c_reversed),
        ranks_before(a, a_reversed, b, b_reversed) && ranks_before(b, b_reversed, c, c_reversed)
            ==> ranks_before(a, a_reversed, c, c_reversed),
{
    let scan_a = scan_of(a, a_reversed);
    let scan_b = scan_of(b, b_reversed);
    let scan_c = scan_of(c, c_reversed);
    if packs_before(a, a_reversed, b, b_reversed) && packs_before(b, b_reversed, c, c_reversed) {
        if scan_a != scan_b && scan_b != scan_c {
            lemma_lex_le_transitive(scan_a, scan_b, scan_c);
            if scan_a == scan_c {
                lemma_lex_le_antisymmetric(scan_a, scan_b);
            }
        }
        if scan_a == scan_b && scan_b == scan_c && a_reversed == b_reversed && b_reversed
            == c_reversed {
            lemma_lex_le_transitive(ordinals(a), ordinals(b), ordinals(c));
        }
    }
}

/// Two readings that rank before each other are the same reading of the
/// same ordering.
pub proof fn lemma_ranks_before_antisymmetric(
    a: Seq<PitchClass>,
    a_reversed: bool,
    b: Seq<PitchClass>,
    b_reversed: bool,
)
    requires
        ranks_before(a, a_reversed, b, b_reversed),
        ranks_before(b, b_reversed, a, a_reversed),
    ensures
        a == b,
        a_reversed == b_reversed,
{
    let scan_a = scan_of(a, a_reversed);
    let scan_b = scan_of(b, b_reversed);
    if scan_a != scan_b {
        lemma_lex_le_antisymmetric(scan_a, scan_b);
    }
    lemma_lex_le_antisymmetric(ordinals(a), ordinals(b));
    lemma_ordinals_injective(a, b);
}

/// Turning a set changes the order of its elements and nothing else.
pub proof fn lemma_rotated_keeps_elements(set: Seq<PitchClass>, by: int)
    requires
        0 <= by <= set.len(),
    ensures
        rotated(set, by).len() == set.len(),
        rotated(set, by).to_multiset() == set.to_multiset(),
{
    let front = set.subrange(0, set.len() - by);
    let back = set.subrange(set.len() - by, set.len() as int);
    assert(set =~= front + back);
    lemma_seq_union_to_multiset_commutative(front, back);
}

/// The intervals of an ordering whose pitches never fall add up to the
/// distance from its first pitch to its last.
proof fn lemma_rising_total(set: Seq<PitchClass>)
    requires
        rising(set),
        set.len() > 0,
    ensures
        total(intervals_of(set)) == set.last().pitch() - set.first().pitch(),
    decreases set.len(),
{
    if set.len() > 1 {
        let shorter = set.drop_last();
        lemma_rising_total(shorter);
        assert(intervals_of(set).drop_last() =~= intervals_of(shorter));
        assert(set[set.len() - 2].pitch() <= set[set.len() - 1].pitch());
    }
}

/// The intervals of two orderings laid end to end are those of the first,
/// the interval across the joint, and those of the second.
proof fn lemma_intervals_concat(a: Seq<PitchClass>, b: Seq<PitchClass>)
    requires
        a.len() > 0,
        b.len() > 0,
    ensures
        intervals_of(a + b) == intervals_of(a) + seq![
            interval_between(a.last().pitch(), b.first().pitch()),
        ] + intervals_of(b),
{
    assert(intervals_of(a + b) =~= intervals_of(a) + seq![
        interval_between(a.last().pitch(), b.first().pitch()),
    ] + intervals_of(b));
}

/// The intervals of a rotation of an ascending arrangement add up to no more
/// than an octave, as they go round the circle of pitches at most once.
pub proof fn lemma_rotation_total_bounded(arranged: Seq<PitchClass>, by: int)
    requires
        sorted_by(arranged, pitch_order()),
        0 <= by <= arranged.len(),
    ensures
        0 <= total(intervals_of(rotated(arranged, by))) <= 12,
{
    let n = arranged.len() as int;
    let back = arranged.subrange(n - by, n);
    let front = arranged.subrange(0, n - by);
    assert forall|i: int, j: int| 0 <= i <= j < n implies arranged[i].pitch()
        <= arranged[j].pitch() by {
        if i < j {
            assert(pitch_order()(arranged[i], arranged[j]));
        }
    }
    if n == 0 {
    } else if by == 0 || by == n {
        assert(rotated(arranged, by) =~= arranged);
        lemma_rising_total(arranged);
    } else {
        lemma_rising_total(back);
        lemma_rising_total(front);
        lemma_intervals_concat(back, front);
        let joint = interval_between(back.last().pitch(), front.first().pitch());
        lemma_total_concat(intervals_of(back) + seq![joint], intervals_of(front));
        lemma_total_concat(intervals_of(back), seq![joint]);
        lemma_total_single(joint);
        assert(front.last().pitch() <= back.first().pitch());
        assert(front.first().pitch() <= back.last().pitch());
    }
}

} // verus!
