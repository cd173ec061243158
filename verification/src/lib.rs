//! Assigns single-character keyboard marks to the windows visible in a tiling
//! window manager, so a key-binding scheme can jump straight to any of them.
//!
//! The library is the pure core: a snapshot of the layout tree plus the
//! workspace list goes in, and the ordered list of (window id, mark) pairs —
//! and the textual commands that apply them — comes out. Everything that
//! touches the IPC socket lives outside, in the surrounding binary.

pub mod command;
pub mod events;
pub mod marks;
pub mod plan;
pub mod tree;
pub mod workspace;
