//! Source observations that keep the version of the bytes they were read
//! from.
use vstd::prelude::*;

verus! {

/// A value together with the version of the source bytes it was read from.
pub struct Versioned<T> {
    pub value: T,
    pub version: String,
}

} // verus!
