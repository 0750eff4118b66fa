//! Decoding of `.cframe` ASCII-art frames and deterministic animation playback.
//!
//! The crate holds the frame codec, the frame ordering rules, the playback
//! state machine and the layout computations a terminal player needs. All
//! terminal and file-system access is left to the caller.

pub mod codec;
pub mod controller;
pub mod frame;
pub mod grid;
pub mod indexer;
pub mod layout;
pub mod loader;
pub mod player;
pub mod status;
pub mod text;
