//! Streaming playback core for synthesized speech.
//!
//! Raw audio arrives as a byte stream, is decoded into 16-bit samples, buffered
//! in a first-in first-out queue, and handed to an audio sink one sample at a
//! time, with a short fade-in at the start of playback.

pub mod allowlist;
pub mod fade;
pub mod gate;
pub mod pipeline;
pub mod queue;
pub mod render;
pub mod request;
pub mod text;
pub mod transport;
pub mod urlencoding;
