//! The causal character of a surface as the observer's local frame draws it.
use vstd::prelude::*;

verus! {

/// Causal character of a surface as read off the line it draws in the local frame.
#[derive(Debug, Clone, Copy, PartialEq, Eq, Structural)]
pub enum SurfaceCharacter {
    /// Steeper than 45 degrees: the surface is timelike, so a rocket can stay off it.
    Timelike,
    /// Exactly 45 degrees: the surface is null; the observer is crossing it now.
    Null,
    /// Flatter than 45 degrees: the surface is spacelike, a moment of the observer's history.
    Spacelike,
}

} // verus!
