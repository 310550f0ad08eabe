//! The logic of the TabScreen server, which turns a tablet into a second screen with stylus input, a
//! touchpad or a speaker: its wire protocol, its pairing handshake, its virtual input devices, and
//! what it asks of the desktop.
use vstd::prelude::*;

pub mod audio;
pub mod bytes;
pub mod connection;
pub mod crypto;
pub mod discovery;
pub mod framing;
pub mod json;
pub mod kde;
pub mod paths;
pub mod pen;
pub mod protocol;
pub mod security;
pub mod session;
pub mod text;
pub mod touch;
pub mod touchpad;
pub mod tray;
pub mod trust;
pub mod uinput;
pub mod video;
pub mod wayland;
pub mod wire;

verus! {

} // verus!
