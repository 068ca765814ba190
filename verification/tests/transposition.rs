use forte::transposition::by as transpose_by;
use forte::PitchClass::{Af, Bf, Cs, Ef, Fs, A, B, C, D, E, F, G};
use forte::{transpose, PitchClass, PitchClassSet};

fn set(elements: Vec<PitchClass>) -> PitchClassSet {
    PitchClassSet::new(elements)
}

#[test]
fn transposing_by_a_level() {
    let set = set(vec![F, G, Af, B]);
    let transposed: PitchClassSet = transpose_by(&set, 8);
    let expected = PitchClassSet::new(vec![Cs, Ef, E, G]);

    assert_eq!(transposed, expected);
}

#[test]
fn transposition_keeps_the_order_of_the_elements() {
    let set = set(vec![C, D, F]);
    assert_eq!(transpose(&set, 3), PitchClassSet::new(vec![Ef, F, Af]));
    assert_eq!(transpose(&PitchClassSet::new(vec![E, F, Af]), 5), PitchClassSet::new(vec![A, Bf, Cs]));
    assert_eq!(transpose(&PitchClassSet::new(vec![F, C, D]), 3), PitchClassSet::new(vec![Af, Ef, F]));
}

#[test]
fn transposition_by_zero_is_the_identity() {
    let set = set(vec![C, Cs, D, Ef, E, F, Fs, G, Af, A, Bf, B]);
    assert_eq!(transpose(&set, 0), set);
    assert_eq!(forte::t0(&set), set);
}

#[test]
fn transposition_by_zero_respells_simply() {
    let set = set(vec![PitchClass::Bs, PitchClass::Df, PitchClass::Css, PitchClass::Ds, PitchClass::Ff]);
    assert_eq!(transpose(&set, 0), PitchClassSet::new(vec![C, Cs, D, Ef, E]));
}

#[test]
fn transposition_is_undone_by_the_opposite_level() {
    let set = set(vec![Cs, Ef, F, G, B]);
    for level in [-1000, -13, -12, -7, -1, 0, 1, 6, 11, 12, 25, 1000] {
        assert_eq!(transpose(&transpose(&set, level), -level), set);
    }
}

#[test]
fn transpositions_compose_by_adding_levels() {
    let set = set(vec![C, D, F]);
    assert_eq!(transpose(&transpose(&set, 5), 9), transpose(&set, 14));
    assert_eq!(transpose(&transpose(&set, 5), 9), transpose(&set, 2));
}

#[test]
fn negative_levels_wrap_downwards() {
    let set = set(vec![C, D, F]);
    assert_eq!(transpose(&set, -1), PitchClassSet::new(vec![B, Cs, E]));
    assert_eq!(transpose(&set, -13), PitchClassSet::new(vec![B, Cs, E]));
    assert_eq!(transpose(&set, -12), set);
}

#[test]
fn extreme_levels_are_reduced_modulo_twelve() {
    let set = set(vec![C]);
    assert_eq!(transpose(&set, i64::MAX), PitchClassSet::new(vec![G]));
    assert_eq!(transpose(&set, i64::MIN), PitchClassSet::new(vec![E]));
    assert_eq!(transpose(&set, 4_294_967_295), PitchClassSet::new(vec![Ef]));
}

#[test]
fn transposition_of_the_empty_set_is_empty() {
    let empty = set(vec![]);
    assert_eq!(transpose(&empty, 7), empty);
}

#[test]
fn every_generated_transposition_level_is_transposition_by_that_level() {
    let set = set(vec![C, D, F]);
    assert_eq!(forte::t4(&set), PitchClassSet::new(vec![E, Fs, A]));
    assert_eq!(forte::t3(&PitchClassSet::new(vec![E, F, Af])), PitchClassSet::new(vec![G, Af, B]));
    let generated = [
        forte::t0(&set),
        forte::t1(&set),
        forte::t2(&set),
        forte::t3(&set),
        forte::t4(&set),
        forte::t5(&set),
        forte::t6(&set),
        forte::t7(&set),
        forte::t8(&set),
        forte::t9(&set),
        forte::t10(&set),
        forte::t11(&set),
    ];
    for (level, transposed) in generated.iter().enumerate() {
        assert_eq!(transposed, &transpose(&set, level as i64));
    }
}
