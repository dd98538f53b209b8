use vstd::prelude::*;

mod sealed;

verus! {

/// Stride arrays accepted by the strided field constructors: `isize` and `[isize; 1]` through `[isize; 4]`. A stride of 0 means the contiguous default for that axis.
pub trait ZfpStrides: sealed::Sealed + Copy {
    /// The entries as an array of length 4, trailing entries zero.
    spec fn spec_to_array(self) -> [isize; 4];

    /// The dimensionality of the array type (1 to 4).
    spec fn spec_dimensionality(self) -> nat;

    /// Return the entries as a fixed-size array of length 4, with trailing entries set to 0.
    fn to_array(self) -> (r: [isize; 4])
        ensures
            r == self.spec_to_array(),
    ;

    /// Return the dimensionality (1–4).
    fn dimensionality(&self) -> (r: usize)
        ensures
            r == self.spec_dimensionality(),
    ;
}

impl ZfpStrides for isize {
    open spec fn spec_to_array(self) -> [isize; 4] {
        [self, 0, 0, 0]
    }

    open spec fn spec_dimensionality(self) -> nat {
        1
    }

    fn to_array(self) -> (r: [isize; 4]) {
        [self, 0, 0, 0]
    }

    fn dimensionality(&self) -> (r: usize) {
        1
    }
}

impl ZfpStrides for [isize; 1] {
    open spec fn spec_to_array(self) -> [isize; 4] {
        [self[0], 0, 0, 0]
    }

    open spec fn spec_dimensionality(self) -> nat {
        1
    }

    fn to_array(self) -> (r: [isize; 4]) {
        [self[0], 0, 0, 0]
    }

    fn dimensionality(&self) -> (r: usize) {
        1
    }
}

impl ZfpStrides for [isize; 2] {
    open spec fn spec_to_array(self) -> [isize; 4] {
        [self[0], self[1], 0, 0]
    }

    open spec fn spec_dimensionality(self) -> nat {
        2
    }

    fn to_array(self) -> (r: [isize; 4]) {
        [self[0], self[1], 0, 0]
    }

    fn dimensionality(&self) -> (r: usize) {
        2
    }
}

impl ZfpStrides for [isize; 3] {
    open spec fn spec_to_array(self) -> [isize; 4] {
        [self[0], self[1], self[2], 0]
    }

    open spec fn spec_dimensionality(self) -> nat {
        3
    }

    fn to_array(self) -> (r: [isize; 4]) {
        [self[0], self[1], self[2], 0]
    }

    fn dimensionality(&self) -> (r: usize) {
        3
    }
}

impl ZfpStrides for [isize; 4] {
    open spec fn spec_to_array(self) -> [isize; 4] {
        [self[0], self[1], self[2], self[3]]
    }

    open spec fn spec_dimensionality(self) -> nat {
        4
    }

    fn to_array(self) -> (r: [isize; 4]) {
        [self[0], self[1], self[2], self[3]]
    }

    fn dimensionality(&self) -> (r: usize) {
        4
    }
}

} // verus!
