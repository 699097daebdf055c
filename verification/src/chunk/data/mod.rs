//! The shapes that chunk payloads decode to.

pub mod ihdr;
