//! States of the touchscreen front end.
use vstd::prelude::*;

verus! {

/// Which screen the kiosk shows.
#[derive(Clone, Copy, Debug, PartialEq, Eq, Structural)]
pub enum Phase {
    Input,
    Edit,
    Crop,
}

/// A corner handle of the crop rectangle.
#[derive(Clone, Copy, Debug, PartialEq, Eq, Structural)]
pub enum HandlePosition {
    TopLeft,
    TopRight,
    BottomLeft,
    BottomRight,
}

/// What a drag on the crop view is doing (`Idle`: no drag).
#[derive(Clone, Copy, Debug, PartialEq, Eq, Structural)]
pub enum DragState {
    Idle,
    DraggingHandle(HandlePosition),
    MovingCrop,
}

} // verus!
