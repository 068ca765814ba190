use vstd::prelude::*;
use vstd::std_specs::convert::FromSpecImpl;

verus! {

/// A pitch class of twelve-tone equal temperament, together with its spelling.
///
/// The seven letters C, D, E, F, G, A and B appear natural, sharp (`s`), flat
/// (`f`), double sharp (`ss`) and double flat (`ff`). C double flat, E double
/// sharp, F double flat and B double sharp are left out: each would move its
/// letter by more than one step.
///
/// Several spellings share one pitch; [`PitchClass::pitch`] gives the pitch of
/// a spelling and [`PitchClass::simple`] the spelling chosen for a pitch.
#[derive(Clone, Copy, Debug, PartialEq, Eq, PartialOrd, Ord, Structural)]
pub enum PitchClass {
    /// C flat, the same pitch as B.
    Cf,
    /// C natural.
    C,
    /// C sharp.
    Cs,
    /// C double sharp, the same pitch as D.
    Css,
    /// D double flat, the same pitch as C.
    Dff,
    /// D flat.
    Df,
    /// D natural.
    D,
    /// D sharp.
    Ds,
    /// D double sharp, the same pitch as E.
    Dss,
    /// E double flat, the same pitch as D.
    Eff,
    /// E flat.
    Ef,
    /// E natural.
    E,
    /// E sharp, the same pitch as F.
    Es,
    /// F flat, the same pitch as E.
    Ff,
    /// F natural.
    F,
    /// F sharp.
    Fs,
    /// F double sharp, the same pitch as G.
    Fss,
    /// G double flat, the same pitch as F.
    Gff,
    /// G flat.
    Gf,
    /// G natural.
    G,
    /// G sharp.
    Gs,
    /// G double sharp, the same pitch as A.
    Gss,
    /// A double flat, the same pitch as G.
    Aff,
    /// A flat.
    Af,
    /// A natural.
    A,
    /// A sharp.
    As,
    /// A double sharp, the same pitch as B.
    Ass,
    /// B double flat, the same pitch as A.
    Bff,
    /// B flat.
    Bf,
    /// B natural.
    B,
    /// B sharp, the same pitch as C.
    Bs,
}

impl PitchClass {
    /// The pitch of this spelling: its distance above C in semitones, from 0
    /// to 11.
    pub open spec fn pitch(self) -> int {
        match self {
            PitchClass::Bs | PitchClass::C | PitchClass::Dff => 0,
            PitchClass::Cs | PitchClass::Df => 1,
            PitchClass::Css | PitchClass::D | PitchClass::Eff => 2,
            PitchClass::Ds | PitchClass::Ef => 3,
            PitchClass::Dss | PitchClass::E | PitchClass::Ff => 4,
            PitchClass::Es | PitchClass::F | PitchClass::Gff => 5,
            PitchClass::Fs | PitchClass::Gf => 6,
            PitchClass::Fss | PitchClass::G | PitchClass::Aff => 7,
            PitchClass::Gs | PitchClass::Af => 8,
            PitchClass::Gss | PitchClass::A | PitchClass::Bff => 9,
            PitchClass::As | PitchClass::Bf => 10,
            PitchClass::Ass | PitchClass::B | PitchClass::Cf => 11,
        }
    }

    /// The spelling chosen for a pitch: `value` is reduced modulo twelve
    /// (rounding down, so negative values wrap), and the result is a natural
    /// where there is one, else C sharp, E flat, F sharp, A flat or B flat.
    pub open spec fn simple(value: int) -> PitchClass {
        let residue = value % 12;
        if residue == 0 {
            PitchClass::C
        } else if residue == 1 {
            PitchClass::Cs
        } else if residue == 2 {
            PitchClass::D
        } else if residue == 3 {
            PitchClass::Ef
        } else if residue == 4 {
            PitchClass::E
        } else if residue == 5 {
            PitchClass::F
        } else if residue == 6 {
            PitchClass::Fs
        } else if residue == 7 {
            PitchClass::G
        } else if residue == 8 {
            PitchClass::Af
        } else if residue == 9 {
            PitchClass::A
        } else if residue == 10 {
            PitchClass::Bf
        } else {
            PitchClass::B
        }
    }

    /// Whether this is the spelling that [`PitchClass::simple`] picks for its
    /// pitch.
    pub open spec fn is_simple(self) -> bool {
        self == PitchClass::simple(self.pitch())
    }

    /// The position of this spelling in the order in which the spellings are
    /// declared, from 0 for C flat to 30 for B sharp.
    pub open spec fn ordinal(self) -> int {
        match self {
            PitchClass::Cf => 0,
            PitchClass::C => 1,
            PitchClass::Cs => 2,
            PitchClass::Css => 3,
            PitchClass::Dff => 4,
            PitchClass::Df => 5,
            PitchClass::D => 6,
            PitchClass::Ds => 7,
            PitchClass::Dss => 8,
            PitchClass::Eff => 9,
            PitchClass::Ef => 10,
            PitchClass::E => 11,
            PitchClass::Es => 12,
            PitchClass::Ff => 13,
            PitchClass::F => 14,
            PitchClass::Fs => 15,
            PitchClass::Fss => 16,
            PitchClass::Gff => 17,
            PitchClass::Gf => 18,
            PitchClass::G => 19,
            PitchClass::Gs => 20,
            PitchClass::Gss => 21,
            PitchClass::Aff => 22,
            PitchClass::Af => 23,
            PitchClass::A => 24,
            PitchClass::As => 25,
            PitchClass::Ass => 26,
            PitchClass::Bff => 27,
            PitchClass::Bf => 28,
            PitchClass::B => 29,
            PitchClass::Bs => 30,
        }
    }

    /// Converts a pitch class to its pitch, with C as 0 and each semitone
    /// above it one more.
    pub fn to_u32(self) -> (value: u32)
        ensures
            value as int == self.pitch(),
            value < 12,
    {
        u32::from(self)
    }

    /// Computes [`PitchClass::ordinal`].
    pub(crate) fn declared_position(self) -> (position: u32)
        ensures
            position as int == self.ordinal(),
            position <= 30,
    {
        match self {
            PitchClass::Cf => 0,
            PitchClass::C => 1,
            PitchClass::Cs => 2,
            PitchClass::Css => 3,
            PitchClass::Dff => 4,
            PitchClass::Df => 5,
            PitchClass::D => 6,
            PitchClass::Ds => 7,
            PitchClass::Dss => 8,
            PitchClass::Eff => 9,
            PitchClass::Ef => 10,
            PitchClass::E => 11,
            PitchClass::Es => 12,
            PitchClass::Ff => 13,
            PitchClass::F => 14,
            PitchClass::Fs => 15,
            PitchClass::Fss => 16,
            PitchClass::Gff => 17,
            PitchClass::Gf => 18,
            PitchClass::G => 19,
            PitchClass::Gs => 20,
            PitchClass::Gss => 21,
            PitchClass::Aff => 22,
            PitchClass::Af => 23,
            PitchClass::A => 24,
            PitchClass::As => 25,
            PitchClass::Ass => 26,
            PitchClass::Bff => 27,
            PitchClass::Bf => 28,
            PitchClass::B => 29,
            PitchClass::Bs => 30,
        }
    }
}

impl From<PitchClass> for u32 {
    fn from(value: PitchClass) -> (pitch: u32) {
        match value {
            PitchClass::Bs | PitchClass::C | PitchClass::Dff => 0,
            PitchClass::Cs | PitchClass::Df => 1,
            PitchClass::Css | PitchClass::D | PitchClass::Eff => 2,
            PitchClass::Ds | PitchClass::Ef => 3,
            PitchClass::Dss | PitchClass::E | PitchClass::Ff => 4,
            PitchClass::Es | PitchClass::F | PitchClass::Gff => 5,
            PitchClass::Fs | PitchClass::Gf => 6,
            PitchClass::Fss | PitchClass::G | PitchClass::Aff => 7,
            PitchClass::Gs | PitchClass::Af => 8,
            PitchClass::Gss | PitchClass::A | PitchClass::Bff => 9,
            PitchClass::As | PitchClass::Bf => 10,
            PitchClass::Ass | PitchClass::B | PitchClass::Cf => 11,
        }
    }
}

impl FromSpecImpl<PitchClass> for u32 {
    open spec fn obeys_from_spec() -> bool {
        true
    }

    open spec fn from_spec(value: PitchClass) -> u32 {
        value.pitch() as u32
    }
}

impl From<u32> for PitchClass {
    fn from(value: u32) -> (spelling: PitchClass) {
        match value % 12 {
            0 => PitchClass::C,
            1 => PitchClass::Cs,
            2 => PitchClass::D,
            3 => PitchClass::Ef,
            4 => PitchClass::E,
            5 => PitchClass::F,
            6 => PitchClass::Fs,
            7 => PitchClass::G,
            8 => PitchClass::Af,
            9 => PitchClass::A,
            10 => PitchClass::Bf,
            11 => PitchClass::B,
            _ => unreached(),
        }
    }
}

impl FromSpecImpl<u32> for PitchClass {
    open spec fn obeys_from_spec() -> bool {
        true
    }

    open spec fn from_spec(value: u32) -> PitchClass {
        PitchClass::simple(value as int)
    }
}

impl From<i64> for PitchClass {
    fn from(value: i64) -> (spelling: PitchClass) {
        match value.checked_rem_euclid(12) {
            Some(residue) => PitchClass::from(residue as u32),
            None => unreached(),
        }
    }
}

impl FromSpecImpl<i64> for PitchClass {
    open spec fn obeys_from_spec() -> bool {
        true
    }

    open spec fn from_spec(value: i64) -> PitchClass {
        PitchClass::simple(value as int)
    }
}

/// Whether every element of a sequence is the spelling that
/// [`PitchClass::simple`] picks for its pitch.
pub open spec fn simply_spelled(set: Seq<PitchClass>) -> bool {
    forall|i: int| 0 <= i < set.len() ==> (#[trigger] set[i]).is_simple()
}

/// The pitches of a sequence of pitch classes, in order.
pub open spec fn pitches(set: Seq<PitchClass>) -> Seq<int> {
    set.map_values(|spelling: PitchClass| spelling.pitch())
}

/// Reading a pitch back from the spelling chosen for it gives the pitch
/// reduced modulo twelve: no pitch is lost on the way from an integer to a
/// pitch class and back.
pub proof fn lemma_simple_keeps_pitch(value: int)
    ensures
        PitchClass::simple(value).pitch() == value % 12,
        PitchClass::simple(value).is_simple(),
{
}

/// Values that agree modulo twelve get the same spelling.
pub proof fn lemma_simple_congruent(value: int, other: int)
    requires
        value % 12 == other % 12,
    ensures
        PitchClass::simple(value) == PitchClass::simple(other),
{
}

/// Two spellings declared at the same position are the same spelling.
pub proof fn lemma_ordinal_injective(a: PitchClass, b: PitchClass)
    requires
        a.ordinal() == b.ordinal(),
    ensures
        a == b,
{
}

} // verus!
