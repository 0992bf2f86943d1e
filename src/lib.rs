//! Smooth fades for the sway window manager.
//!
//! The library decides which windows or workspaces a fade touches and lays
//! out the timed sequence of commands that produces the ramp. Sending the
//! commands and sleeping between them is left to the caller.

pub mod command;
pub mod resolve;
pub mod sequence;
mod token;
