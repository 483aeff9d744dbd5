//! A filtering proxy for the Wayland protocol: wire codec, protocol
//! descriptors, object registry and the per-connection filter state machine.
pub mod wire;
pub mod buffers;
pub mod codec;
pub mod args;
pub mod protocol;
pub mod objects;
pub mod proto;
pub mod config;
pub mod state;
pub mod duplex;
pub mod xml;
pub mod xmlread;

