//! Interactive editing core of a terminal text editor.
//!
//! The crate turns abstract input events into consistent buffer mutations,
//! tracks one or more simultaneous edit points, lays out soft-wrapped text for
//! a fixed-width viewport, and keeps a syntax-highlight cache coherent with
//! both the edit history and the visible region.

pub mod buffer;
pub mod cursor;
pub mod edit;
pub mod editor;
pub mod layout;
pub mod scroll;
pub mod search;
pub mod spans;
pub mod syntect_api;
pub mod engine;
