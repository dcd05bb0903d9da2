//! What can go wrong.

use vstd::prelude::*;

verus! {

/// Why the library refused an input.
#[derive(Clone, Copy, PartialEq, Eq, Debug, Structural)]
pub enum NetError {
    /// A layer's configuration does not divide evenly, or a tensor does not have the
    /// shape that the configuration asks for, or a shape is too large for this machine.
    ShapeMismatch,
    /// The bytes of a data set do not follow its format.
    Format,
    /// A stored layer does not describe a layer.
    Serialization,
}

impl NetError {
    /// A sentence that describes the error.
    pub fn to_string(&self) -> (text: String)
        ensures
            text@ == (match *self {
                NetError::ShapeMismatch => "shape mismatch"@,
                NetError::Format => "malformed data set"@,
                NetError::Serialization => "malformed stored layer"@,
            }),
    {
        match self {
            NetError::ShapeMismatch => "shape mismatch".to_string(),
            NetError::Format => "malformed data set".to_string(),
            NetError::Serialization => "malformed stored layer".to_string(),
        }
    }
}

} // verus!
