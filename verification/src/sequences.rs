//! Arithmetic on sequences of integers: totals, running sums and the
//! lexicographic order, with the facts about them that the analyses rely on.

use vstd::prelude::*;

verus! {

/// The numbers of a sequence of machine integers, as mathematical integers.
pub open spec fn as_ints(values: Seq<u32>) -> Seq<int> {
    values.map_values(|value: u32| value as int)
}

/// Whether no entry of the sequence lies below zero.
pub open spec fn non_negative(values: Seq<int>) -> bool {
    forall|i: int| 0 <= i < values.len() ==> values[i] >= 0
}

/// The sum of all entries of a sequence.
pub open spec fn total(values: Seq<int>) -> int
    decreases values.len(),
{
    if values.len() == 0 {
        0
    } else {
        total(values.drop_last()) + values.last()
    }
}

/// The running sums of a sequence: entry `i` is the sum of the entries at
/// positions `0..=i`.
pub open spec fn running_sums(values: Seq<int>) -> Seq<int> {
    Seq::new(values.len(), |i: int| total(values.take(i + 1)))
}

/// The lexicographic order on sequences of integers: the first position at
/// which two sequences differ decides, and a proper prefix comes before the
/// sequence it starts.
pub open spec fn lex_le(a: Seq<int>, b: Seq<int>) -> bool
    decreases a.len(),
{
    if a.len() == 0 {
        true
    } else if b.len() == 0 {
        false
    } else if a.first() != b.first() {
        a.first() < b.first()
    } else {
        lex_le(a.drop_first(), b.drop_first())
    }
}

/// The total of a concatenation is the sum of the totals of its parts.
pub proof fn lemma_total_concat(a: Seq<int>, b: Seq<int>)
    ensures
        total(a + b) == total(a) + total(b),
    decreases b.len(),
{
    if b.len() == 0 {
        assert(a + b =~= a);
    } else {
        lemma_total_concat(a, b.drop_last());
        assert((a + b).drop_last() =~= a + b.drop_last());
    }
}

/// The total of a one-entry sequence is that entry.
pub proof fn lemma_total_single(value: int)
    ensures
        total(seq![value]) == value,
{
    reveal_with_fuel(total, 2);
}

/// Reversing a sequence does not change its total.
pub proof fn lemma_total_reverse(values: Seq<int>)
    ensures
        total(values.reverse()) == total(values),
    decreases values.len(),
{
    if values.len() > 0 {
        let rest = values.drop_last();
        assert(values.reverse() =~= seq![values.last()] + rest.reverse());
        lemma_total_concat(seq![values.last()], rest.reverse());
        lemma_total_single(values.last());
        lemma_total_reverse(rest);
    }
}

/// A sequence without negative entries has a total of at least zero.
pub proof fn lemma_total_non_negative(values: Seq<int>)
    requires
        non_negative(values),
    ensures
        total(values) >= 0,
    decreases values.len(),
{
    if values.len() > 0 {
        lemma_total_non_negative(values.drop_last());
    }
}

/// In a sequence without negative entries no prefix sums to more than the
/// whole.
pub proof fn lemma_total_prefix(values: Seq<int>, end: int)
    requires
        non_negative(values),
        0 <= end <= values.len(),
    ensures
        0 <= total(values.take(end)) <= total(values),
{
    assert(values =~= values.take(end) + values.skip(end));
    lemma_total_concat(values.take(end), values.skip(end));
    lemma_total_non_negative(values.take(end));
    lemma_total_non_negative(values.skip(end));
}

/// Every sequence comes at or before itself.
pub proof fn lemma_lex_le_reflexive(a: Seq<int>)
    ensures
        lex_le(a, a),
    decreases a.len(),
{
    if a.len() > 0 {
        lemma_lex_le_reflexive(a.drop_first());
    }
}

/// Of two sequences, one comes at or before the other.
pub proof fn lemma_lex_le_total(a: Seq<int>, b: Seq<int>)
    ensures
        lex_le(a, b) || lex_le(b, a),
    decreases a.len(),
{
    if a.len() > 0 && b.len() > 0 && a.first() == b.first() {
        lemma_lex_le_total(a.drop_first(), b.drop_first());
    }
}

/// Two sequences that each come at or before the other are equal.
pub proof fn lemma_lex_le_antisymmetric(a: Seq<int>, b: Seq<int>)
    requires
        lex_le(a, b),
        lex_le(b, a),
    ensures
        a == b,
    decreases a.len(),
{
    if a.len() == 0 || b.len() == 0 {
        assert(a =~= b);
    } else {
        lemma_lex_le_antisymmetric(a.drop_first(), b.drop_first());
        assert(a =~= seq![a.first()] + a.drop_first());
        assert(b =~= seq![b.first()] + b.drop_first());
    }
}

/// The lexicographic order is transitive.
pub proof fn lemma_lex_le_transitive(a: Seq<int>, b: Seq<int>, c: Seq<int>)
    requires
        lex_le(a, b),
        lex_le(b, c),
    ensures
        lex_le(a, c),
    decreases a.len(),
{
    if a.len() > 0 && b.len() > 0 && c.len() > 0 {
        if a.first() == b.first() && b.first() == c.first() {
            lemma_lex_le_transitive(a.drop_first(), b.drop_first(), c.drop_first());
        }
    }
}

/// Two sequences that agree on their first `common` positions compare as
/// what follows those positions.
pub proof fn lemma_lex_le_common_prefix(a: Seq<int>, b: Seq<int>, common: int)
    requires
        0 <= common <= a.len(),
        common <= b.len(),
        forall|i: int| 0 <= i < common ==> a[i] == b[i],
    ensures
        lex_le(a, b) == lex_le(a.skip(common), b.skip(common)),
    decreases common,
{
    if common == 0 {
        assert(a.skip(0) =~= a);
        assert(b.skip(0) =~= b);
    } else {
        lemma_lex_le_common_prefix(a.drop_first(), b.drop_first(), common - 1);
        assert(a.drop_first().skip(common - 1) =~= a.skip(common));
        assert(b.drop_first().skip(common - 1) =~= b.skip(common));
    }
}

/// Decides the lexicographic order of two sequences.
pub fn lexicographically_le(a: &Vec<u32>, b: &Vec<u32>) -> (le: bool)
    ensures
        le == lex_le(as_ints(a@), as_ints(b@)),
{
    let mut i: usize = 0;
    while i < a.len() && i < b.len()
        invariant
            i <= a.len(),
            i <= b.len(),
            forall|j: int| 0 <= j < i ==> a@[j] == b@[j],
        decreases a.len() - i,
    {
        if a[i] != b[i] {
            proof {
                lemma_lex_le_common_prefix(as_ints(a@), as_ints(b@), i as int);
            }
            return a[i] < b[i];
        }
        i += 1;
    }
    proof {
        lemma_lex_le_common_prefix(as_ints(a@), as_ints(b@), i as int);
    }
    i == a.len()
}

/// Returns the entries of a sequence in reverse order.
pub fn reversed(values: &Vec<u32>) -> (mirror: Vec<u32>)
    ensures
        mirror@ == values@.reverse(),
{
    let mut mirror: Vec<u32> = Vec::new();
    let mut i: usize = values.len();
    while i > 0
        invariant
            i <= values.len(),
            mirror@.len() == values.len() - i,
            forall|j: int| 0 <= j < mirror@.len() ==> mirror@[j] == values@[values.len() - 1 - j],
        decreases i,
    {
        i -= 1;
        mirror.push(values[i]);
    }
    mirror
}

} // verus!
