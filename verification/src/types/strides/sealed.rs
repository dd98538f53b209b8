use vstd::prelude::*;

verus! {

/// Closes [`super::ZfpStrides`] to the stride array types of this crate.
pub trait Sealed {}

impl Sealed for isize {}

impl Sealed for [isize; 1] {}

impl Sealed for [isize; 2] {}

impl Sealed for [isize; 3] {}

impl Sealed for [isize; 4] {}

} // verus!
