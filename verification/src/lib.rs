//! The logic of a speech-to-text daemon: it captures microphone audio, streams
//! it to a recognition service over a WebSocket, and relays the recognised text
//! to a local client as JSON lines.
//!
//! Everything here is a function of plain values. Devices, sockets and the
//! environment belong to the program around the library, which performs what
//! the state machines of [`relay`] and [`client`] ask for and reports back what
//! happened.

pub mod audio;
pub mod client;
pub mod config;
pub mod json;
pub mod messages;
pub mod relay;
pub mod request;
pub mod text;
pub mod transcript;
pub mod wire;
