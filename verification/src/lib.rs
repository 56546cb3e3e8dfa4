//! The rule core of a radar-navigation arcade game, on a fixed-point grid.
//!
//! A ship crosses a field of polygonal asteroids towards a destination. It
//! cannot see the asteroids; an expanding radar sweep reveals the points
//! where the scan circle first touches an asteroid edge. Everything here is
//! integer arithmetic: positions are thousandths of a pixel, angles are
//! hundredths of a degree, and unit vectors come from a validated table.

pub mod units;
pub mod geometry;
pub mod compass;
pub mod screen;
mod random;
pub mod asteroid;
pub mod radar;
pub mod level;
pub mod game;

