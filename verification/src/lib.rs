//! Verified core of a keystroke overlay for Wayland compositors: the
//! keymap configuration format, command-line options, keypress bookkeeping,
//! frame pacing, buffer pooling and the device-broker message protocol.

pub mod text;
pub mod config;
pub mod input;
pub mod render;
pub mod wayland;
pub mod devmgr;
pub mod cli;
pub mod xkb;
