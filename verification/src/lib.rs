//! The core of Clipsta, an instant replay for PC.
//!
//! The screen is captured, encoded once, and kept in memory for some minutes
//! ([`ring`]). A clip is cut out of this buffer at a keyframe ([`session`]) and
//! written as it was encoded ([`mux`]). The other modules hold the rules around
//! this: how the encoder is set up and fed, where clips go and what they are
//! called, how they are exported, inspected and trimmed.
//!
//! What touches the machine is done by the caller; where its outcome matters, a
//! function here takes the outcome and says what follows from it.
pub mod clips;
pub mod clock;
pub mod commands;
pub mod encoder;
pub mod export;
pub mod media_type;
pub mod mp4;
pub mod mux;
pub mod nal;
pub mod naming;
pub mod number;
pub mod nv12;
pub mod path;
pub mod pcm;
pub mod pipeline;
pub mod recording;
pub mod ring;
pub mod segments;
pub mod session;
pub mod source;
pub mod text;
pub mod trim;
