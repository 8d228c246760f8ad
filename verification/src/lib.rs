//! Verified core of a sorting visualizer: step-by-step bubble and selection
//! sort drivers, the color and geometry rules for the bar-chart renderer,
//! tone selection for the audio player, and run configuration bounds.
//!
//! The algorithms are driven one comparison at a time so that a caller can
//! render a frame and play a tone between steps. Everything here is pure
//! computation; windowing, audio output and timing live outside the library.

pub mod algorithms;
pub mod audio;
pub mod bubble;
pub mod config;
pub mod render;
pub mod selection;
pub mod step;

