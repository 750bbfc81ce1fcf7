//! Recovery and organization of extension-less asset files.
//!
//! The library classifies a file's type from its bytes alone, parses PNG
//! headers for pixel dimensions, computes collision-safe destination names,
//! and decides content-search matches. All decisions are pure functions of
//! plain values; the surrounding application performs the actual file I/O.

pub mod appstate;
pub mod classify;
pub mod decode;
pub mod errors;
pub mod names;
pub mod png;
pub mod relocate;
pub mod search;
pub mod text;
