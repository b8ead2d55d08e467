//! A minimal real-time 2D simulation: balls on a fixed rectangular
//! playfield are launched from the center toward a pointer click, fly in a
//! straight line at constant speed, and are retired at the playfield
//! boundary, each retirement immediately refilling the pending-launch slot
//! with a fresh idle ball. Coordinates and speeds are fixed-point integers
//! (thousandths of a playfield unit), so launch normalization, per-frame
//! Euler integration and the boundary rules are all verified exactly; a
//! host engine or driver supplies the frame clock, pointer events and
//! rendering around it.

pub mod ball;
pub mod intmath;
pub mod sim;
