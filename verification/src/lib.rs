//! A user-space display driver core: a double-buffered linear framebuffer
//! with glyph, rectangle, block-move and scroll primitives, a parser for the
//! firmware-provided video mode descriptor, and the request handlers of the
//! display resource protocol (open/dup/fsync/write/close).
//!
//! The hardware edge (mapping physical memory, the transport socket) lives
//! outside this crate; everything here works on plain owned buffers.

pub mod display;
pub mod event;
pub mod font;
pub mod laws;
pub mod mode_info;
pub mod primitive;
pub mod scheme;
