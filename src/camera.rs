use vstd::prelude::*;

verus! {

/// A direction in which a fly camera moves.
#[derive(Clone, Copy, Debug, PartialEq, Eq, Structural)]
pub enum CameraDirection {
    Forward,
    Backward,
    Left,
    Right,
}

} // verus!
