//! A fixed-point core for a reactive audio spectrum display.
//!
//! The crate turns a stream of audio samples into bar heights, peak marks
//! and particles:
//!
//! - [`frames`] cuts chunks of any length into analysis windows and mixes
//!   several channels down to one;
//! - [`levels`] measures and evens out the loudness of a window;
//! - [`bands`] maps the bins of a magnitude spectrum to 64 display bands and
//!   holds the tilt curve;
//! - [`spectrum`] reads the level of a band from a magnitude spectrum;
//! - [`analyzer`] keeps bar heights, peak-hold heights, cooldown counters
//!   and the gain estimate, and finds the bands that fire;
//! - [`behaviour`] states what holds of the analyzer over whole runs;
//! - [`motion`] and [`particles`] send out, move and remove particles;
//! - [`controls`] holds the mode switches and the rotation of the circle;
//! - [`color`] turns hues into colours;
//! - [`fixed`] holds the arithmetic that all of them share.
//!
//! Everything is computed on integers. Samples, magnitudes, heights and
//! gains are counted in millionths, weights in thousandths, positions in
//! thousandths of a pixel, times in microseconds and angles in millionths
//! of a degree. The window function and the forward transform work on
//! floating point and are left to the caller, who hands the analyzer the
//! magnitudes of the first 1024 bins of each window.

pub mod analyzer;
pub mod bands;
pub mod behaviour;
pub mod color;
pub mod controls;
pub mod fixed;
pub mod frames;
pub mod levels;
pub mod motion;
pub mod particles;
pub mod spectrum;
