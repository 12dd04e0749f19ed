//! Verified core of a 2D canvas interaction engine: the node registry, the
//! gesture state machine and its event queue, freehand draw paths, the image
//! store with nearest-neighbour and bilinear resampling, and the layout rules
//! of the flat input buffers.

pub mod buffers;
pub mod events;
pub mod gesture;
pub mod image;
pub mod paths;
pub mod registry;
