//! Resolves a streaming-video manifest (an HLS-style playlist) into an
//! ordered list of encrypted media segments, decrypts each segment with a
//! shared AES-128-CBC key, and merges the plaintexts in manifest order.

pub mod client;
pub mod decryption;
pub mod errors;
pub mod extractor;
pub mod mp3url;
pub mod pipeline;
pub mod text;
pub mod util;
