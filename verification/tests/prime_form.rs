use forte::prime_form::from;
use forte::PitchClass::{Af, Bf, Cs, Ef, Fs, A, C, D, E, F, G};
use forte::{invert, to_prime_form, transpose, PitchClass, PitchClassSet};

fn set(elements: Vec<PitchClass>) -> PitchClassSet {
    PitchClassSet::new(elements)
}

#[test]
fn prime_form_from_normal_form() {
    let set = set(vec![F, Fs, A]);
    let prime = from(&set);
    assert_eq!(prime, vec![0, 1, 4]);
}

#[test]
fn prime_form_from_non_normal_form() {
    let set = set(vec![A, F, Fs]);
    let prime = from(&set);
    assert_eq!(prime, vec![0, 1, 4]);
}

#[test]
fn prime_form_from_right_packed_normal_form() {
    let set = set(vec![Cs, F, Fs, G]);
    let prime = from(&set);
    assert_eq!(prime, vec![0, 1, 2, 6]);
}

#[test]
fn prime_form_of_a_major_and_a_minor_triad() {
    assert_eq!(to_prime_form(&set(vec![Bf, F, A])), vec![0, 1, 5]);
    assert_eq!(to_prime_form(&set(vec![E, Ef, Af])), vec![0, 1, 5]);
    assert_eq!(to_prime_form(&set(vec![C, E, G])), vec![0, 3, 7]);
    assert_eq!(to_prime_form(&set(vec![C, Ef, G])), vec![0, 3, 7]);
}

#[test]
fn prime_form_begins_with_zero_and_has_the_size_of_the_set() {
    let sets = [
        vec![D],
        vec![A, Bf, F],
        vec![F, Af, A, Cs],
        vec![C, E, Af, A, PitchClass::B],
        vec![C, Cs, D, Ef, E, F, Fs, G, Af, A, Bf, PitchClass::B],
        vec![PitchClass::Bs, PitchClass::Cf, D],
    ];
    for elements in sets {
        let size = elements.len();
        let prime = to_prime_form(&set(elements));
        assert_eq!(prime[0], 0);
        assert_eq!(prime.len(), size);
    }
}

#[test]
fn prime_form_of_the_empty_set_is_a_single_zero() {
    assert_eq!(from(&set(vec![])), vec![0]);
}

#[test]
fn prime_form_of_one_element_is_a_single_zero() {
    assert_eq!(from(&set(vec![G])), vec![0]);
}

#[test]
fn prime_form_of_repeated_elements() {
    assert_eq!(from(&set(vec![C, C])), vec![0, 0]);
}

#[test]
fn prime_form_is_shared_by_transpositions_and_inversions() {
    let set = set(vec![Cs, F, Fs, G]);
    let prime = to_prime_form(&set);
    for level in 0..12 {
        assert_eq!(to_prime_form(&transpose(&set, level)), prime);
        assert_eq!(to_prime_form(&invert(&set, level)), prime);
    }
}

#[test]
fn prime_form_of_the_chromatic_scale() {
    let set = set(vec![C, Cs, D, Ef, E, F, Fs, G, Af, A, Bf, PitchClass::B]);
    assert_eq!(to_prime_form(&set), vec![0, 1, 2, 3, 4, 5, 6, 7, 8, 9, 10, 11]);
}
