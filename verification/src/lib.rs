//! Planning, reading and simulating G-code for a hobby laser cutter.
//!
//! Coordinates are floating point in the machine's own world; this crate
//! never looks at their numeric value. A coordinate is handed in as a
//! [`PointId`]: two points have the same id exactly when the coordinates
//! compare equal. The text of each coordinate, as it is printed into a
//! G-code file, is handed in beside it.

pub mod gcode;
pub mod line_roundtrip;
pub mod plan;
pub mod renderer;
pub mod pixel_renderer;
pub mod workspace;
pub mod emulator;
pub mod readback;
pub mod grid;
pub mod console;
pub mod svg_paths;
