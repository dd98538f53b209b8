use vstd::prelude::*;

verus! {

/// Closes [`super::ZfpDims`] to the dimension array types of this crate.
pub trait Sealed {}

impl Sealed for usize {}

impl Sealed for [usize; 1] {}

impl Sealed for [usize; 2] {}

impl Sealed for [usize; 3] {}

impl Sealed for [usize; 4] {}

} // verus!
