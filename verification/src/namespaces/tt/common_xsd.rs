use vstd::prelude::*;

verus! {

/// Unique identifier for a physical or logical resource. Tokens are unique
/// at least within their class, and up to 64 characters long.
#[derive(Clone, Debug)]
pub struct ReferenceToken(pub String);

/// Range of values greater equal Min value and less equal Max value.
#[derive(Clone, Copy, Debug, PartialEq, Eq, Structural)]
pub struct IntRange {
    pub min: isize,
    pub max: isize,
}

/// Whether the pan/tilt unit and the zoom unit are moving.
#[derive(Clone, Copy, Debug, PartialEq, Eq, Structural)]
pub struct PTZMoveStatus {
    pub pan_tilt: MoveStatus,
    pub zoom: MoveStatus,
}

/// Whether a unit is moving, at rest, or in a state that is not known.
#[derive(Clone, Copy, Debug, PartialEq, Eq, Structural)]
pub enum MoveStatus {
    IDLE,
    MOVING,
    UNKNOWN,
}

/// Room for later additions to a transformation, kept as the text it holds.
#[derive(Clone, Debug)]
pub struct TransformationExtension {
    pub content: String,
}

} // verus!
