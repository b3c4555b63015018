//! A small 2D rigid-body collision engine over exact rational arithmetic.
//!
//! Bodies are circles (plus static boundary walls); every quantity — position,
//! velocity, mass, restitution — is an exact rational number, so collision
//! detection and impulse resolution are exact and their physical laws
//! (momentum conservation, wall-reflection idempotence, ...) are proved, not
//! approximated.

pub mod algebra;
pub mod box2d;
pub mod collide_calculation;
pub mod detection_broad_phase;
pub mod laws;
pub mod rational;
pub mod detection_narrow_phase;
pub mod shapes;

use vstd::prelude::*;

verus! {

/// Everything that can go wrong inside the engine.
#[derive(Clone, Copy, Debug, PartialEq, Eq, Structural)]
pub enum EngineError {
    /// A shape pairing whose detection or resolution is intentionally not
    /// implemented (rectangles, wall against wall).
    Unsupported,
    /// Two overlapping circles with exactly coincident centers: the contact
    /// normal is undefined.
    DegenerateGeometry,
    /// An input value outside the engine's domain (non-positive finite mass).
    InvalidInput,
    /// An exact rational intermediate no longer fits the fixed-width
    /// representation.
    OutOfRange,
}

} // verus!
