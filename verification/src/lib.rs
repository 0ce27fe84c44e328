//! Core of an S3 object browser: request signing, response parsing, the
//! request engine's queues, the navigation model and the streaming preview.

pub mod assoc;
pub mod aws;
pub mod backend;
pub mod browser_model;
pub mod events;
pub mod format;
pub mod frecency;
pub mod model;
pub mod preview;
pub mod preview_cache;
pub mod renderer;
pub mod round_trip;
pub mod settings;
pub mod streaming_preview;
pub mod text;
