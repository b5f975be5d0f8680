//! Voice-activity detection over telephony audio: G.711 µ-law decoding,
//! fixed-duration framing, and a hysteresis detector that turns per-frame
//! speech scores into "speech started" / "speech ended" markers.
pub mod detector;
pub mod g711;
pub mod pipeline;
pub mod time;
pub mod window;
