use vstd::prelude::*;

verus! {

/// Sealed supertrait: prevents out-of-crate implementations of
/// [`JpegPixel`](super::JpegPixel).
pub trait Sealed {

}

} // verus!
