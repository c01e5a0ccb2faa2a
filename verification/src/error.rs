use crate::types::BoxType;
use vstd::prelude::*;

verus! {

/// The errors that decoding and encoding can report.
#[derive(Debug, Clone, Copy, PartialEq, Eq)]
pub enum Error {
    /// The data ended before a value could be read in full.
    IoError,
    /// The data does not have the shape that the format prescribes.
    InvalidData(&'static str),
    /// A box that must be present was not found.
    BoxNotFound(BoxType),
    /// Neither of two boxes, one of which must be present, was found.
    Box2NotFound(BoxType, BoxType),
    /// A box has a version that is not supported.
    UnsupportedBoxVersion(BoxType, u8),
}

/// The result type of this library.
pub type Result<T> = core::result::Result<T, Error>;

} // verus!
