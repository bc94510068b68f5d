//! Recognition core for a "draw a circle with the pointer" desktop gesture.
//!
//! The library classifies a pointer trajectory — an ordered sequence of
//! device-pixel positions captured between a button press and its release —
//! as either a circle (centre and radius) or a rejection.  It also holds the
//! recording state machine that accumulates the trajectory, including the
//! downsampling filter that keeps a new point only when it has moved far
//! enough from the last kept one.
//!
//! Everything here is exact integer arithmetic over device-pixel
//! coordinates; the host shell converts the result to DPI-scaled logical
//! pixels before it is dispatched.

pub mod analyzer;
pub mod geometry;
pub mod session;

pub use analyzer::CircleGestureResult;
pub use geometry::Point;
pub use session::GestureSession;
