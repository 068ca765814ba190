use vstd::prelude::*;
use crate::pitch_class::PitchClass;

verus! {

/// An ordered collection of pitch classes.
///
/// The collection keeps the order it was given and may hold a pitch class
/// more than once; the operations that read it impose whatever order they
/// need. Its view is the sequence of its elements.
#[derive(Debug, PartialEq, Eq, PartialOrd, Ord)]
pub struct PitchClassSet {
    set: Vec<PitchClass>,
}

impl View for PitchClassSet {
    type V = Seq<PitchClass>;

    closed spec fn view(&self) -> Seq<PitchClass> {
        self.set@
    }
}

impl PitchClassSet {
    /// Creates a collection that holds the given pitch classes in the given
    /// order.
    pub fn new(set: Vec<PitchClass>) -> (created: Self)
        ensures
            created@ == set@,
    {
        Self { set }
    }

    /// Returns the pitch classes of the collection, in order.
    pub fn set(&self) -> (elements: &Vec<PitchClass>)
        ensures
            elements@ == self@,
    {
        &self.set
    }
}

impl Clone for PitchClassSet {
    fn clone(&self) -> (copy: Self)
        ensures
            copy@ == self@,
    {
        Self { set: self.set.clone() }
    }
}

} // verus!
