//! Draws a small rocket and drives its flight up a terminal that understands
//! the kitty graphics protocol.
//!
//! The library computes; it never touches the terminal.  Every command it
//! builds is a byte string for the caller to write, and every decision of the
//! animation loop is a step of a state machine that the caller runs.

pub mod animation;
pub mod bitmap;
pub mod codec;
pub mod color;
pub mod protocol;
pub mod raster;
pub mod terminal;
pub mod text;
pub mod transport;
