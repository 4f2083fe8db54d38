use vstd::prelude::*;

verus! {

/// Base class for physical entities like inputs and outputs.
#[derive(Clone, Debug)]
pub struct DeviceEntity {
    pub token: ReferenceToken,
}

/// The token by which a device entity is referred to.
#[derive(Clone, Debug)]
pub struct ReferenceToken(pub String);

/// User readable name. Length up to 64 characters.
#[derive(Clone, Debug)]
pub struct Name(pub String);

/// Rectangle defined by lower left corner position and size. Units are pixel.
#[derive(Clone, Copy, Debug, PartialEq, Eq, Structural)]
pub struct IntRectangle {
    pub x: i16,
    pub y: i16,
    pub width: i16,
    pub height: i16,
}

/// Range of a rectangle. The rectangle itself is defined by lower left corner
/// position and size. Units are pixel.
#[derive(Clone, Copy, Debug, PartialEq, Eq, Structural)]
pub struct IntRectangleRange {
}

} // verus!
