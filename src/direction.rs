//! Directions of media ports.

use vstd::prelude::*;

verus! {

/// The direction of a media port or stream.
#[derive(Debug, Clone, Copy, PartialEq, Eq, Structural)]
pub enum Direction {
    Input,
    Output,
}

} // verus!
