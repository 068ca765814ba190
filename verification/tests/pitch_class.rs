use forte::sequences::{lexicographically_le, reversed};
use forte::utils::{get_interval_between, intervals};
use forte::PitchClass::{
    Af, Aff, As, Ass, Bf, Bff, Bs, Cf, Cs, Css, Df, Dff, Ds, Dss, Ef, Eff, Es, Ff, Fs, Fss, Gf,
    Gff, Gs, Gss, A, B, C, D, E, F, G,
};
use forte::{PitchClass, PitchClassSet};

#[test]
fn every_spelling_has_its_pitch() {
    let expected = [
        (vec![Bs, C, Dff], 0),
        (vec![Cs, Df], 1),
        (vec![Css, D, Eff], 2),
        (vec![Ds, Ef], 3),
        (vec![Dss, E, Ff], 4),
        (vec![Es, F, Gff], 5),
        (vec![Fs, Gf], 6),
        (vec![Fss, G, Aff], 7),
        (vec![Gs, Af], 8),
        (vec![Gss, A, Bff], 9),
        (vec![As, Bf], 10),
        (vec![Ass, B, Cf], 11),
    ];
    let mut count = 0;
    for (spellings, pitch) in expected {
        for spelling in spellings {
            assert_eq!(spelling.to_u32(), pitch);
            assert_eq!(u32::from(spelling), pitch);
            count += 1;
        }
    }
    assert_eq!(count, 31);
}

#[test]
fn every_pitch_has_its_simple_spelling() {
    let simple = [C, Cs, D, Ef, E, F, Fs, G, Af, A, Bf, B];
    for (pitch, spelling) in simple.iter().enumerate() {
        assert_eq!(PitchClass::from(pitch as u32), *spelling);
        assert_eq!(PitchClass::from(pitch as i64), *spelling);
        assert_eq!(PitchClass::from(pitch as u32 + 12), *spelling);
        assert_eq!(PitchClass::from(pitch as i64 - 12), *spelling);
        assert_eq!(PitchClass::from(pitch as i64 - 120), *spelling);
    }
}

#[test]
fn integers_survive_the_way_through_a_pitch_class() {
    for value in 0..48u32 {
        assert_eq!(PitchClass::from(value).to_u32(), value % 12);
    }
    for value in -48..48i64 {
        assert_eq!(i64::from(PitchClass::from(value).to_u32()), value.rem_euclid(12));
    }
}

#[test]
fn spellings_collapse_on_the_way_through_an_integer() {
    assert_eq!(PitchClass::from(Bs.to_u32()), C);
    assert_eq!(PitchClass::from(Cf.to_u32()), B);
    assert_eq!(PitchClass::from(Ds.to_u32()), Ef);
    assert_eq!(PitchClass::from(Gs.to_u32()), Af);
    assert_eq!(PitchClass::from(As.to_u32()), Bf);
    assert_eq!(PitchClass::from(Df.to_u32()), Cs);
    assert_eq!(PitchClass::from(Gf.to_u32()), Fs);
}

#[test]
fn extreme_integers_are_reduced_modulo_twelve() {
    assert_eq!(PitchClass::from(u32::MAX), Ef);
    assert_eq!(PitchClass::from(i64::MAX), G);
    assert_eq!(PitchClass::from(i64::MIN), E);
    assert_eq!(PitchClass::from(-1i64), B);
}

#[test]
fn a_set_keeps_its_elements_in_order() {
    let set = PitchClassSet::new(vec![C, D, E]);
    assert_eq!(set.set(), &[C, D, E]);
    let repeated = PitchClassSet::new(vec![E, C, E]);
    assert_eq!(repeated.set(), &vec![E, C, E]);
    assert_eq!(PitchClassSet::new(vec![]).set().len(), 0);
}

#[test]
fn a_clone_of_a_set_equals_it() {
    let set = PitchClassSet::new(vec![F, A, Bf]);
    assert_eq!(set.clone(), set);
    assert_ne!(set, PitchClassSet::new(vec![A, F, Bf]));
}

#[test]
fn intervals_ascend_round_the_circle() {
    assert_eq!(get_interval_between(0, 11), 11);
    assert_eq!(get_interval_between(11, 0), 1);
    assert_eq!(get_interval_between(5, 5), 0);
    assert_eq!(get_interval_between(9, 10), 1);
    assert_eq!(get_interval_between(10, 5), 7);
    for a in 0..12 {
        for b in 0..12 {
            let up = get_interval_between(a, b);
            assert!(up < 12);
            assert_eq!((a + up) % 12, b);
        }
    }
}

#[test]
fn intervals_read_their_arguments_modulo_twelve() {
    assert_eq!(get_interval_between(13, 2), 1);
    assert_eq!(get_interval_between(0, 100), 4);
    assert_eq!(get_interval_between(100, 0), 8);
    assert_eq!(get_interval_between(u32::MAX, 0), 9);
}

#[test]
fn intervals_between_neighbours() {
    assert_eq!(intervals(&[C, E, G]), vec![4, 3]);
    assert_eq!(intervals(&[F, A, Bf]), vec![4, 1]);
    assert_eq!(intervals(&[Bf, F, A]), vec![7, 4]);
    assert_eq!(intervals(&[E, Af, A, B, C]), vec![4, 1, 2, 1]);
    assert_eq!(intervals(&[C, C]), vec![0]);
    assert_eq!(intervals(&[B]), Vec::<u32>::new());
    assert_eq!(intervals(&[]), Vec::<u32>::new());
}

#[test]
fn sequences_compare_lexicographically() {
    assert!(lexicographically_le(&vec![1, 3, 4], &vec![3, 1, 4]));
    assert!(!lexicographically_le(&vec![3, 1, 4], &vec![1, 3, 4]));
    assert!(lexicographically_le(&vec![1, 2], &vec![1, 2]));
    assert!(lexicographically_le(&vec![1, 2], &vec![1, 2, 0]));
    assert!(!lexicographically_le(&vec![1, 2, 0], &vec![1, 2]));
    assert!(lexicographically_le(&vec![], &vec![0]));
    assert!(lexicographically_le(&vec![], &vec![]));
    assert!(!lexicographically_le(&vec![0], &vec![]));
}

#[test]
fn sequences_reverse() {
    assert_eq!(reversed(&vec![4, 1, 3]), vec![3, 1, 4]);
    assert_eq!(reversed(&vec![7]), vec![7]);
    assert_eq!(reversed(&vec![]), Vec::<u32>::new());
}
