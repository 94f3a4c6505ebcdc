//! Decision engine for recoloring window borders.
//!
//! The crate holds the logic of a border colorizer: matching windows
//! against user rules, classifying windows as active along owner chains,
//! animating a rainbow hue, and keeping a hot-reloading configuration
//! snapshot in step with a backing file. All operating-system work
//! (enumerating windows, painting attributes, reading and writing the
//! file) happens outside; the engine takes and returns plain values.

pub mod active;
pub mod color;
pub mod config;
pub mod editor;
pub mod format;
pub mod matcher;
pub mod paint;
pub mod rainbow;
pub mod roundtrip;
pub mod store;
pub mod text;
