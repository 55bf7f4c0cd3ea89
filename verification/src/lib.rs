//! Timing and judgment engine for a four-lane rhythm game.
//!
//! Beat markers scroll toward a hit line; a key press is scored into one of
//! five judgment tiers by how far the press lands from the beat's scheduled
//! moment. The engine owns the session clock model, the set of in-flight
//! beats, hit resolution, the running score, and the expiry sweep that drops
//! beats which scrolled past the line unplayed. Rendering, audio and input
//! sourcing live outside the engine and talk to it through plain values.

pub mod host;
pub mod judgment;
pub mod session;
pub mod timing;
