//! Picture processing as if a picture were a sound: pixels are laid out as a
//! one-dimensional signal, split into color lanes, run through audio effects
//! and put back together.
pub mod buffer;
pub mod parameters;
pub mod picture;
pub mod processor;
pub mod ui;
