use forte::normal_form::{from, Internal};
use forte::PitchClass::{Af, Bf, Bs, Cf, Cs, A, B, C, D, E, F, G};
use forte::{to_normal_form, transpose, PitchClass, PitchClassSet};

fn set(elements: Vec<PitchClass>) -> PitchClassSet {
    PitchClassSet::new(elements)
}

#[test]
fn normal_form_with_one_clear_answer() {
    let set = set(vec![A, Bf, F]);
    let expected = PitchClassSet::new(vec![F, A, Bf]);
    assert_eq!(from(&set), expected);
}

#[test]
fn normal_form_with_multiple_options_with_same_span_but_different_packing() {
    let set = set(vec![F, Af, A, Cs]);
    let expected = PitchClassSet::new(vec![Cs, F, Af, A]);
    assert_eq!(from(&set), expected);
}

#[test]
fn normal_form_prefers_packing_to_the_left() {
    let set = set(vec![C, E, Af, A, B]);
    let expected = PitchClassSet::new(vec![Af, A, B, C, E]);
    assert_eq!(from(&set), expected);
}

#[test]
fn normal_form_of_mirrored_interval_profiles() {
    let set = set(vec![E, Af, A, B, C]);
    assert_eq!(to_normal_form(&set), PitchClassSet::new(vec![Af, A, B, C, E]));
}

#[test]
fn normal_form_does_not_depend_on_the_order_given() {
    let expected = PitchClassSet::new(vec![B, C, D]);
    assert_eq!(to_normal_form(&set(vec![C, D, B])), expected);
    assert_eq!(to_normal_form(&set(vec![D, B, C])), expected);
    assert_eq!(to_normal_form(&set(vec![B, D, C])), expected);
    assert_eq!(to_normal_form(&set(vec![Bf, F, A])), PitchClassSet::new(vec![F, A, Bf]));
}

#[test]
fn normal_form_is_idempotent() {
    let sets = [
        vec![],
        vec![D],
        vec![A, Bf, F],
        vec![F, Af, A, Cs],
        vec![C, E, Af, A, B],
        vec![Af, C, E],
        vec![Bs, Cf, D],
        vec![C, C, E],
        vec![C, Cs, D, PitchClass::Ef, E, F, PitchClass::Fs, G, Af, A, Bf, B],
    ];
    for elements in sets {
        let once = to_normal_form(&set(elements));
        let twice = to_normal_form(&once);
        assert_eq!(twice, once);
    }
}

#[test]
fn normal_form_of_the_empty_set_is_empty() {
    let empty = set(vec![]);
    assert_eq!(from(&empty), empty);
}

#[test]
fn normal_form_of_one_element_is_that_element() {
    let single = set(vec![D]);
    assert_eq!(from(&single), single);
}

#[test]
fn normal_form_of_fully_tied_rotations_starts_on_the_earliest_spelling() {
    // Every rotation of an augmented triad has the same span and the same
    // intervals in either direction.
    let expected = PitchClassSet::new(vec![C, E, Af]);
    assert_eq!(from(&set(vec![Af, C, E])), expected);
    assert_eq!(from(&set(vec![E, Af, C])), expected);
    assert_eq!(from(&set(vec![C, E, Af])), expected);
}

#[test]
fn normal_form_arranges_by_pitch_not_by_spelling() {
    // B sharp sounds as C and C flat as B, so the ascending arrangement is
    // B sharp, D, C flat.
    assert_eq!(from(&set(vec![Bs, Cf, D])), PitchClassSet::new(vec![Cf, Bs, D]));
    assert_eq!(from(&set(vec![C, Cf])), PitchClassSet::new(vec![Cf, C]));
}

#[test]
fn normal_form_orders_spellings_of_one_pitch_by_declaration() {
    assert_eq!(from(&set(vec![B, Cf])), PitchClassSet::new(vec![Cf, B]));
    assert_eq!(from(&set(vec![Cf, B])), PitchClassSet::new(vec![Cf, B]));
}

#[test]
fn normal_form_keeps_repeated_elements() {
    assert_eq!(from(&set(vec![C, C])), PitchClassSet::new(vec![C, C]));
    assert_eq!(from(&set(vec![C, E, C])), PitchClassSet::new(vec![C, E, C]));
}

#[test]
fn normal_form_commutes_with_transposition() {
    let set = set(vec![F, Af, A, Cs]);
    for level in 0..12 {
        let moved_first = to_normal_form(&transpose(&set, level));
        let moved_last = transpose(&to_normal_form(&set), level);
        assert_eq!(moved_first, moved_last);
    }
}

#[test]
fn normal_form_of_the_chromatic_scale() {
    let set = set(vec![B, Bf, A, Af, G, PitchClass::Fs, F, E, PitchClass::Ef, D, Cs, C]);
    let expected = PitchClassSet::new(vec![
        C,
        Cs,
        D,
        PitchClass::Ef,
        E,
        F,
        PitchClass::Fs,
        G,
        Af,
        A,
        Bf,
        B,
    ]);
    assert_eq!(from(&set), expected);
}

#[test]
fn descriptions_of_equal_orderings_are_equal() {
    let one = Internal::new(set(vec![F, A, Bf]));
    let same = Internal::new(set(vec![F, A, Bf]));
    let other = Internal::new(set(vec![A, Bf, F]));
    assert_eq!(one, same);
    assert_ne!(one, other);
    let empty = Internal::new(set(vec![]));
    assert_eq!(empty, Internal::new(set(vec![])));
}
