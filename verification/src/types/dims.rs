use vstd::prelude::*;

mod sealed;

verus! {

/// Dimension arrays accepted by the field constructors: `usize` and `[usize; 1]` through `[usize; 4]`.
pub trait ZfpDims: sealed::Sealed + Copy {
    /// The entries as an array of length 4, trailing entries zero.
    spec fn spec_to_array(self) -> [usize; 4];

    /// The dimensionality of the array type (1 to 4).
    spec fn spec_dimensionality(self) -> nat;

    /// Return the entries as a fixed-size array of length 4, with trailing entries set to 0.
    fn to_array(self) -> (r: [usize; 4])
        ensures
            r == self.spec_to_array(),
    ;

    /// Return the dimensionality (1–4).
    fn dimensionality(&self) -> (r: usize)
        ensures
            r == self.spec_dimensionality(),
    ;
}

impl ZfpDims for usize {
    open spec fn spec_to_array(self) -> [usize; 4] {
        [self, 0, 0, 0]
    }

    open spec fn spec_dimensionality(self) -> nat {
        1
    }

    fn to_array(self) -> (r: [usize; 4]) {
        [self, 0, 0, 0]
    }

    fn dimensionality(&self) -> (r: usize) {
        1
    }
}

impl ZfpDims for [usize; 1] {
    open spec fn spec_to_array(self) -> [usize; 4] {
        [self[0], 0, 0, 0]
    }

    open spec fn spec_dimensionality(self) -> nat {
        1
    }

    fn to_array(self) -> (r: [usize; 4]) {
        [self[0], 0, 0, 0]
    }

    fn dimensionality(&self) -> (r: usize) {
        1
    }
}

impl ZfpDims for [usize; 2] {
    open spec fn spec_to_array(self) -> [usize; 4] {
        [self[0], self[1], 0, 0]
    }

    open spec fn spec_dimensionality(self) -> nat {
        2
    }

    fn to_array(self) -> (r: [usize; 4]) {
        [self[0], self[1], 0, 0]
    }

    fn dimensionality(&self) -> (r: usize) {
        2
    }
}

impl ZfpDims for [usize; 3] {
    open spec fn spec_to_array(self) -> [usize; 4] {
        [self[0], self[1], self[2], 0]
    }

    open spec fn spec_dimensionality(self) -> nat {
        3
    }

    fn to_array(self) -> (r: [usize; 4]) {
        [self[0], self[1], self[2], 0]
    }

    fn dimensionality(&self) -> (r: usize) {
        3
    }
}

impl ZfpDims for [usize; 4] {
    open spec fn spec_to_array(self) -> [usize; 4] {
        [self[0], self[1], self[2], self[3]]
    }

    open spec fn spec_dimensionality(self) -> nat {
        4
    }

    fn to_array(self) -> (r: [usize; 4]) {
        [self[0], self[1], self[2], self[3]]
    }

    fn dimensionality(&self) -> (r: usize) {
        4
    }
}

} // verus!
