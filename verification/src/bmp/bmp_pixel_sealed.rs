use vstd::prelude::*;

verus! {

/// Sealed supertrait: prevents out-of-crate implementations of
/// [`BmpPixel`](super::BmpPixel).
pub trait Sealed {

}

} // verus!
