//! Core of a live audio spectrum broadcaster.
//!
//! The crate holds the integer and structural logic of the pipeline: sample
//! accumulation into a fixed analysis window, frame pacing against a clock
//! supplied by the caller, the bin index arithmetic that maps a half spectrum
//! onto frequency bands, and the fan-out of finished frames to subscribers
//! with a bounded, drop-oldest backlog.
//!
//! Everything numeric that needs floating point (window coefficients, the
//! transform itself, loudness weights, decibel scaling) is left to the caller,
//! which hands this crate plain integers and byte frames.

pub mod analyzer;
pub mod bins;
pub mod buffer;
pub mod config;
pub mod distributor;
pub mod frame;
pub mod pacing;
pub mod session;
