//! Convert a recorded terminal session into an animated vector graphic.
//!
//! The pipeline replays decoded terminal control events against a virtual
//! grid, extracts deduplicated text runs ("symbols") from each reconstructed
//! frame, assigns colors either inline or through shared class tokens, and
//! encodes the whole session as one timed animation document.

pub mod asciicast;
pub mod color;
pub mod colormap;
pub mod encode;
pub mod error;
pub mod extract;
pub mod frame;
pub mod numfmt;
pub mod order;
pub mod symbol;
pub mod xml;
