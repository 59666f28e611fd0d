//! The weight signal of the smoothing client.
use vstd::prelude::*;

verus! {

/// Weight signal. It is a marker: only the type is used, never a value.
#[derive(Debug, Clone, Copy, PartialEq, Eq, Structural)]
pub enum Weight {
    /// The one value, which nothing reads.
    Marker,
}

} // verus!
