use forte::inversion::{by as invert_by, by_pair};
use forte::PitchClass::{Af, Bf, Cs, Ef, B, C, D, E, F, G};
use forte::{invert, invert_by_pair, PitchClass, PitchClassSet};

fn set(elements: Vec<PitchClass>) -> PitchClassSet {
    PitchClassSet::new(elements)
}

#[test]
fn inverting_around_a_level() {
    let set = set(vec![Cs, Ef, F, G]);
    let inverted: PitchClassSet = invert_by(&set, 5);
    assert_eq!(inverted, PitchClassSet::new(vec![Bf, C, D, E]));
}

#[test]
fn i0_is_not_an_identity() {
    let set = set(vec![G, Af, B]);
    let inverted = invert_by(&set, 0);
    assert_eq!(inverted, PitchClassSet::new(vec![Cs, E, F]));
}

#[test]
fn inverting_by_an_inversion_pair() {
    let set = set(vec![G, Af, B]);
    let inverted = by_pair(&set, (G, B));
    assert_eq!(inverted, PitchClassSet::new(vec![G, Bf, B]));
}

#[test]
fn inversion_reverses_the_order_of_traversal() {
    let set = set(vec![C, D, F]);
    assert_eq!(invert(&set, 4), PitchClassSet::new(vec![B, D, E]));
    assert_eq!(invert_by(&set, 4).set(), &vec![B, D, E]);
}

#[test]
fn inversion_around_zero_changes_an_asymmetric_set() {
    let set = set(vec![G, Af, B]);
    assert_ne!(invert(&set, 0), set);
}

#[test]
fn inversion_around_zero_keeps_a_symmetric_set() {
    // E flat and A are each other's mirror image around 0.
    let tritone = set(vec![Ef, PitchClass::A]);
    assert_eq!(invert(&tritone, 0), tritone);
}

#[test]
fn inverting_twice_restores_the_set() {
    let set = set(vec![Cs, Ef, F, G, B]);
    for level in [-25, -12, -1, 0, 1, 4, 5, 11, 12, 13, 1000] {
        let twice = invert(&invert(&set, level), level);
        assert_eq!(twice, set);
    }
}

#[test]
fn inverting_twice_respells_simply_and_keeps_pitches() {
    let set = set(vec![PitchClass::Bs, PitchClass::Dff, PitchClass::Fss, PitchClass::Cf]);
    let twice = invert(&invert(&set, 7), 7);
    assert_eq!(twice, PitchClassSet::new(vec![C, C, G, B]));
}

#[test]
fn inversion_levels_count_modulo_twelve() {
    let set = set(vec![C, D, F]);
    assert_eq!(invert(&set, 16), invert(&set, 4));
    assert_eq!(invert(&set, -8), invert(&set, 4));
    assert_eq!(invert(&set, i64::MIN), invert(&set, 4));
    assert_eq!(invert(&set, i64::MAX), invert(&set, 7));
}

#[test]
fn inversion_by_pair_is_inversion_around_the_sum() {
    let set = set(vec![C, Cs, D, F]);
    assert_eq!(invert_by_pair(&set, (C, Cs)), PitchClassSet::new(vec![Af, B, C, Cs]));
    assert_eq!(invert_by_pair(&set, (C, Cs)), invert(&set, 1));
    let spellings = [C, Cs, D, Ef, E, F, G, Af, Bf, B, PitchClass::Cf, PitchClass::Bs];
    for a in spellings {
        for b in spellings {
            let level = (a.to_u32() + b.to_u32()) % 12;
            assert_eq!(by_pair(&set, (a, b)), invert_by(&set, i64::from(level)));
        }
    }
}

#[test]
fn inversion_by_pair_maps_the_pair_onto_each_other() {
    let first = set(vec![Cs]);
    let second = set(vec![F]);
    assert_eq!(invert_by_pair(&first, (Cs, F)), second);
    assert_eq!(invert_by_pair(&second, (Cs, F)), first);
    let set = set(vec![C, D, F]);
    assert_eq!(invert_by_pair(&set, (Cs, F)), PitchClassSet::new(vec![Cs, E, forte::PitchClass::Fs]));
}

#[test]
fn inversion_of_the_empty_set_is_empty() {
    let empty = set(vec![]);
    assert_eq!(invert(&empty, 3), empty);
}

#[test]
fn every_generated_inversion_level_is_inversion_at_that_level() {
    let set = set(vec![E, F, Af]);
    assert_eq!(forte::i0(&set), PitchClassSet::new(vec![E, G, Af]));
    assert_eq!(forte::i3(&PitchClassSet::new(vec![C, D, F])), PitchClassSet::new(vec![Bf, Cs, Ef]));
    let generated = [
        forte::i0(&set),
        forte::i1(&set),
        forte::i2(&set),
        forte::i3(&set),
        forte::i4(&set),
        forte::i5(&set),
        forte::i6(&set),
        forte::i7(&set),
        forte::i8(&set),
        forte::i9(&set),
        forte::i10(&set),
        forte::i11(&set),
    ];
    for (level, inverted) in generated.iter().enumerate() {
        assert_eq!(inverted, &invert(&set, level as i64));
    }
}
