//! Verified core of a live audio spectrum analyser.
//!
//! Samples captured from an input device are grouped into fixed-size
//! analysis frames, each frame is windowed and turned into a magnitude
//! spectrum by the caller's Fourier transform, and the spectrum is smoothed
//! over time by an envelope follower before it is drawn.  This crate holds
//! the parts of that pipeline whose behaviour is proved:
//!
//! - [`frame`]: the frame assembler, which never loses or reorders a sample;
//! - [`envelope`]: the envelope follower, with instant attack and a decay
//!   that provably reaches a steady input;
//! - [`display`]: the mapping between spectrum bins and frequencies.
//!
//! Samples pass through untouched, whatever their type.  Magnitudes are
//! fixed-point integers, so that every result is exact and the same on every
//! machine; the caller chooses the scale.

pub mod display;
pub mod envelope;
pub mod frame;
