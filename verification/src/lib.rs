//! Verified core of the NexFilm film-scan engine: colour-space identification,
//! ICC and DNG container assembly and reading, capability resolution, capture
//! quality masks and Bayer layout, settings copies between frames, and the
//! bookkeeping that decides which processing contract a frame runs under.

pub mod app_state;
pub mod batch_settings;
pub mod calibration_fit;
pub mod capability_resolver;
pub mod color_science;
pub mod digest;
pub mod dng_writer;
pub mod film_border;
pub mod geometry;
pub mod persistence;
pub mod pipeline;
pub mod raw_backend;
pub mod scanner_profile;
pub mod text;
