//! Core of a desktop frame-capture pipeline built on a compositor-level
//! duplication interface: the acquire/release frame lifecycle, pitch-aware
//! readback of a mapped surface into a packed top-down BGRA raster, and
//! bit-exact compositing of the hardware cursor onto that raster.
//!
//! The platform collaborators (device and duplication-session providers, the
//! mapped-surface supplier, the file sink) stay outside this crate; the logic
//! here works on plain buffers and values they hand over.

pub mod bmp;
pub mod composite;
pub mod cursor;
pub mod error;
pub mod readback;
pub mod pixel;
pub mod session;
